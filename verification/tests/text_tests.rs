use kernel_core::syscalls::{
    error_code, invoke, invoke_int, open_file_value, protection_mode, split_call, Args, Buffer,
    Call, Error, FreeCall, ProtectionMode, Request,
};
use kernel_core::utf16::{wtf8_to_utf16, Str16};

fn units(bytes: &[u8]) -> Vec<u16> {
    let mut it = wtf8_to_utf16(bytes);
    let mut out = Vec::new();
    loop {
        assert!(it.check_advance());
        match it.next() {
            Some(cu) => out.push(cu),
            None => return out,
        }
    }
}

#[test]
fn well_paired_units_make_a_string() {
    assert!(Str16::new(&[]).is_some());
    assert!(Str16::new(&[0x48, 0x69]).is_some());
    assert!(Str16::new(&[0xD800, 0xDC00]).is_some());
    assert!(Str16::new(&[0x41, 0xD83D, 0xDE00, 0x42]).is_some());
    assert!(Str16::new(&[0xDBFE, 0xDFFF]).is_some());
    assert!(Str16::new(&[0xD7FF, 0xE000, 0xFFFF]).is_some());
}

#[test]
fn unpaired_surrogates_are_refused() {
    // A high surrogate at the end.
    assert!(Str16::new(&[0x41, 0xD800]).is_none());
    // A high surrogate before an ordinary unit.
    assert!(Str16::new(&[0xD800, 0x41]).is_none());
    // Two high surrogates.
    assert!(Str16::new(&[0xD800, 0xD800, 0xDC00]).is_none());
    // A low surrogate with no high before it.
    assert!(Str16::new(&[0xDC00]).is_none());
    assert!(Str16::new(&[0x41, 0xDC00]).is_none());
    // Two low surrogates after one high.
    assert!(Str16::new(&[0xD800, 0xDC00, 0xDC00]).is_none());
}

#[test]
fn last_unit_of_the_high_range_opens_no_pair() {
    assert!(Str16::new(&[0xDBFF]).is_some());
    assert!(Str16::new(&[0xDBFF, 0x41]).is_some());
    assert!(Str16::new(&[0xDBFF, 0xDC00]).is_none());
}

#[test]
fn unchecked_string_takes_anything() {
    let s = Str16::new_unchecked(&[0xDC00, 0x41]);
    let mut chars = s.chars();
    assert!(!chars.check_advance());
}

#[test]
fn characters_of_a_string() {
    let s = Str16::new(&[0x48, 0xE9, 0x20AC, 0xFFFD]).unwrap();
    let mut chars = s.chars();
    let mut out = String::new();
    while chars.check_advance() {
        match chars.next() {
            Some(c) => out.push(c),
            None => break,
        }
    }
    assert_eq!(out, "H\u{e9}\u{20ac}\u{fffd}");
    assert!(chars.check_advance());
    assert_eq!(chars.next(), None);
}

#[test]
fn surrogates_are_not_decoded() {
    let s = Str16::new(&[0x41, 0xD83D, 0xDE00]).unwrap();
    let mut chars = s.chars();
    assert!(chars.check_advance());
    assert_eq!(chars.next(), Some('A'));
    assert!(!chars.check_advance());
}

#[test]
fn bytes_of_a_string() {
    let s = Str16::new(&[0x48, 0xE9, 0x20AC, 0x0, 0x7F, 0x80, 0x7FF, 0x800, 0xFFFF]).unwrap();
    let mut bytes = s.wtf8();
    let mut out = Vec::new();
    while bytes.check_advance() {
        match bytes.next() {
            Some(b) => out.push(b),
            None => break,
        }
    }
    let text = "H\u{e9}\u{20ac}\u{0}\u{7f}\u{80}\u{7ff}\u{800}\u{ffff}";
    let expected: Vec<u8> = text.bytes().collect();
    assert_eq!(out, expected);
    assert_eq!(bytes.next(), None);
}

#[test]
fn short_sequences_become_units() {
    assert_eq!(units(b""), Vec::<u16>::new());
    assert_eq!(units(b"Hi"), vec![0x48, 0x69]);
    assert_eq!(units("\u{e9}".as_bytes()), vec![0xE9]);
    assert_eq!(units("\u{20ac}".as_bytes()), vec![0x20AC]);
    assert_eq!(
        units("a\u{7ff}b\u{800}c\u{ffff}".as_bytes()),
        vec![0x61, 0x7FF, 0x62, 0x800, 0x63, 0xFFFF]
    );
    // A surrogate in three bytes goes through as it is.
    assert_eq!(units(&[0xED, 0xA0, 0x80]), vec![0xD800]);
}

#[test]
fn bytes_that_start_no_sequence_stand_for_themselves() {
    assert_eq!(units(&[0x80]), vec![0x80]);
    assert_eq!(units(&[0xBF, 0x41]), vec![0xBF, 0x41]);
    assert_eq!(units(&[0xC3]), vec![0xC3]);
    assert_eq!(units(&[0xC3, 0x41]), vec![0xC3, 0x41]);
    assert_eq!(units(&[0xE2, 0x82]), vec![0xE2, 0x82]);
    assert_eq!(units(&[0xE2, 0x82, 0x41]), vec![0xE2, 0x82, 0x41]);
    assert_eq!(units(&[0xF0, 0x9F, 0x98]), vec![0xF0, 0x9F, 0x98]);
    assert_eq!(units(&[0xF8, 0x80]), vec![0xF8, 0x80]);
    assert_eq!(units(&[0xFF]), vec![0xFF]);
}

#[test]
fn long_sequences_are_cut_to_sixteen_bits() {
    // U+1F600 in four bytes.
    assert_eq!(units(&[0xF0, 0x9F, 0x98, 0x80]), vec![0xF600]);
    // U+10000.
    assert_eq!(units(&[0xF0, 0x90, 0x80, 0x80, 0x41]), vec![0x0000, 0x41]);
    // The largest number that four bytes hold.
    assert_eq!(units(&[0xF7, 0xBF, 0xBF, 0xBF]), vec![0xFFFF]);
}

#[test]
fn long_sequence_for_a_small_number_cannot_be_converted() {
    let bytes = [0x41, 0xF0, 0x80, 0x80, 0x80];
    let mut it = wtf8_to_utf16(&bytes);
    assert!(it.check_advance());
    assert_eq!(it.next(), Some(0x41));
    assert!(!it.check_advance());
    let bytes = [0xF0, 0x8F, 0xBF, 0xBF];
    assert!(!wtf8_to_utf16(&bytes).check_advance());
}

#[test]
fn free_and_object_calls() {
    assert_eq!(split_call(0), Call::Free(0));
    assert_eq!(split_call(0x0003_0001), Call::Free(0x0003_0001));
    assert_eq!(split_call(0x7FFF_FFFF), Call::Free(0x7FFF_FFFF));
    assert_eq!(split_call(0x8000_0000), Call::Method(0, 0));
    assert_eq!(split_call(0x8012_3456), Call::Method(0x23456, 1));
    assert_eq!(split_call(0x8000_0000 | (0x7FE << 20) | 0xFFFFF), Call::Method(0xFFFFF, 0x7FE));
    assert_eq!(split_call(0x8000_0000 | (0x7FF << 20) | 7), Call::Destroy(7));
    assert_eq!(split_call(u32::MAX), Call::Destroy(0xFFFFF));
}

#[test]
fn outcome_of_a_call() {
    assert_eq!(invoke(Ok(0)), 0);
    assert_eq!(invoke(Ok(42)), 42);
    assert_eq!(invoke(Err(Error::TooManyArgs)), u64::MAX);
    assert_eq!(invoke(Err(Error::BadValue)), !0);
    assert_eq!(invoke(Err(Error::InvalidBuffer(0x1000, 16))), !0);
    assert_eq!(invoke(Err(Error::InvalidUnicode)), !0);
}

#[test]
fn error_codes_start_in_the_middle() {
    assert_eq!(error_code(0), usize::MAX / 2);
    assert_eq!(error_code(1), usize::MAX / 2 + 1);
    assert_eq!(error_code(0x7FFF_FFFF), usize::MAX / 2 + 0x7FFF_FFFF);
}

#[test]
fn arguments_are_taken_in_order() {
    let words = [1usize, 0x1_2345_6789, 0x1FF, 0x4000, 8, 99];
    let mut args = Args::new(&words);
    assert_eq!(args.get_usize(), Ok(1));
    assert_eq!(args.get_u32(), Ok(0x2345_6789));
    assert_eq!(args.get_u8(), Ok(0xFF));
    assert_eq!(args.get_arg(), Ok(Buffer { ptr: 0x4000, len: 8 }));
    assert_eq!(args.get_u64(), Ok(99));
    assert_eq!(args.get_usize(), Err(Error::TooManyArgs));
    assert_eq!(args.get_u64(), Err(Error::TooManyArgs));
    assert_eq!(args.get_u32(), Err(Error::TooManyArgs));
    assert_eq!(args.get_u8(), Err(Error::TooManyArgs));
    assert_eq!(args.get_arg(), Err(Error::TooManyArgs));
}

#[test]
fn buffer_needs_two_words() {
    let words = [0x4000usize];
    let mut args = Args::new(&words);
    assert_eq!(args.get_arg(), Err(Error::TooManyArgs));
    // The one word is still there.
    assert_eq!(args.get_usize(), Ok(0x4000));
}

#[test]
fn protection_modes() {
    assert_eq!(protection_mode(0), Ok(ProtectionMode::UserRO));
    assert_eq!(protection_mode(1), Ok(ProtectionMode::UserRW));
    assert_eq!(protection_mode(2), Ok(ProtectionMode::UserRX));
    assert_eq!(protection_mode(3), Ok(ProtectionMode::UserRWX));
    assert_eq!(protection_mode(4), Err(Error::BadValue));
    assert_eq!(protection_mode(255), Err(Error::BadValue));
}

#[test]
fn plain_strings_have_no_surrogate() {
    assert!(Str16::new(&[]).unwrap().is_plain());
    assert!(Str16::new(&[0x48, 0xD7FF, 0xE000]).unwrap().is_plain());
    assert!(!Str16::new(&[0x48, 0xD800, 0xDC00]).unwrap().is_plain());
    assert!(!Str16::new(&[0xDBFF]).unwrap().is_plain());
    assert!(!Str16::new_unchecked(&[0xDFFF]).is_plain());
}

#[test]
fn text_of_a_string() {
    let s = Str16::new(&[0x48, 0xE9, 0x20AC, 0x0, 0x7F, 0x80, 0x7FF, 0x800, 0xFFFF]).unwrap();
    let text = "H\u{e9}\u{20ac}\u{0}\u{7f}\u{80}\u{7ff}\u{800}\u{ffff}";
    assert_eq!(s.display(), text.as_bytes().to_vec());
    assert_eq!(Str16::new(&[]).unwrap().display(), Vec::<u8>::new());
}

#[test]
fn string_against_text_and_bytes() {
    let s = Str16::new(&[0x48, 0xE9, 0x20AC]).unwrap();
    assert!(s.eq_str("H\u{e9}\u{20ac}"));
    assert!(!s.eq_str("H\u{e9}"));
    assert!(!s.eq_str("H\u{e9}\u{20ac}!"));
    assert!(!s.eq_str("H\u{e8}\u{20ac}"));
    assert!(!s.eq_str(""));
    assert!(s.eq_bytes("H\u{e9}\u{20ac}".as_bytes()));
    assert!(s.eq_bytes(&[0x48, 0xC3, 0xA9, 0xE2, 0x82, 0xAC]));
    assert!(!s.eq_bytes(&[0x48, 0xC3, 0xA9, 0xE2, 0x82]));
    assert!(!s.eq_bytes(&[0x48, 0xC3, 0xA9, 0xE2, 0x82, 0xAD]));
    let empty = Str16::new(&[]).unwrap();
    assert!(empty.eq_str(""));
    assert!(empty.eq_bytes(&[]));
    assert!(!empty.eq_str("a"));
}

#[test]
fn quoted_form_of_a_string() {
    let q = |units: &[u16]| String::from_utf8(Str16::new(units).unwrap().debug()).unwrap();
    assert_eq!(q(&[]), "w\"\"");
    assert_eq!(q(&[0x48, 0x69]), "w\"Hi\"");
    assert_eq!(q(&[0x5C]), "w\"\\\\\"");
    assert_eq!(q(&[0x0A, 0x0D]), "w\"\\n\\r\"");
    assert_eq!(q(&[0x22]), "w\"\\\"\"");
    assert_eq!(q(&[0x0]), "w\"\\0\"");
    assert_eq!(q(&[0x20, 0x7E, 0x7F, 0xE9, 0x127]), "w\" ~\u{7f}\u{e9}\u{127}\"");
    assert_eq!(q(&[0x1, 0x1F, 0x128, 0x20AC, 0xFFFF]), "w\"\\u{1}\\u{1f}\\u{128}\\u{20ac}\\u{ffff}\"");
    assert_eq!(q(&[0x9]), "w\"\\u{9}\"");
}

#[test]
fn free_calls_take_their_arguments() {
    let end = 0x7FFF_FFFF_FFFFusize;
    assert_eq!(
        invoke_int(FreeCall::LogWrite, &[0x1000, 5], end),
        Ok(Request::LogWrite(Buffer { ptr: 0x1000, len: 5 }))
    );
    assert_eq!(invoke_int(FreeCall::LogWrite, &[0x1000], end), Err(Error::TooManyArgs));
    assert_eq!(invoke_int(FreeCall::ExitProcess, &[0x1_0000_0007], end), Ok(Request::ExitProcess(7)));
    assert_eq!(invoke_int(FreeCall::ExitProcess, &[], end), Err(Error::TooManyArgs));
    assert_eq!(invoke_int(FreeCall::ExitThread, &[], end), Ok(Request::ExitThread));
    assert_eq!(
        invoke_int(FreeCall::StartThread, &[0x4000, 0x8000, 99], end),
        Ok(Request::StartThread { ip: 0x4000, sp: 0x8000 })
    );
    assert_eq!(invoke_int(FreeCall::StartThread, &[0x4000], end), Err(Error::TooManyArgs));
    assert_eq!(
        invoke_int(FreeCall::GuiNewGroup, &[1, 2], end),
        Ok(Request::GuiNewGroup(Buffer { ptr: 1, len: 2 }))
    );
    assert_eq!(
        invoke_int(FreeCall::GuiNewWindow, &[3, 4], end),
        Ok(Request::GuiNewWindow(Buffer { ptr: 3, len: 4 }))
    );
    assert_eq!(invoke_int(FreeCall::VfsOpenNode, &[], end), Ok(Request::VfsOpenNode));
    assert_eq!(invoke_int(FreeCall::VfsOpenDir, &[], end), Ok(Request::VfsOpenDir));
    assert_eq!(
        invoke_int(FreeCall::VfsOpenFile, &[0x1000, 8, 2], end),
        Ok(Request::VfsOpenFile { name: Buffer { ptr: 0x1000, len: 8 }, mode: 2 })
    );
    assert_eq!(invoke_int(FreeCall::VfsOpenFile, &[0x1000, 8], end), Err(Error::TooManyArgs));
    assert_eq!(
        invoke_int(FreeCall::MemAllocate, &[0x2000, 3], end),
        Ok(Request::MemAllocate { addr: 0x2000, count: 3 })
    );
    assert_eq!(
        invoke_int(FreeCall::MemDeallocate, &[0x2000], end),
        Ok(Request::MemDeallocate { addr: 0x2000 })
    );
    assert_eq!(invoke_int(FreeCall::MemDeallocate, &[], end), Err(Error::TooManyArgs));
    assert_eq!(invoke_int(FreeCall::Unknown, &[1, 2, 3], end), Ok(Request::Unknown));
    assert_eq!(open_file_value(Ok(5)), 5);
    assert_eq!(open_file_value(Err(3)), 0x8000_0003);
}

#[test]
fn new_process_range_is_checked() {
    let end = 0x8000usize;
    assert_eq!(
        invoke_int(FreeCall::StartProcess, &[1, 2, 0x1000, 0x8000], end),
        Ok(Request::StartProcess { ip: 1, sp: 2, start: 0x1000, end: 0x8000 })
    );
    assert_eq!(
        invoke_int(FreeCall::StartProcess, &[1, 2, 0x1000, 0x1000], end),
        Ok(Request::StartProcess { ip: 1, sp: 2, start: 0x1000, end: 0x1000 })
    );
    assert_eq!(invoke_int(FreeCall::StartProcess, &[1, 2, 0x2000, 0x1000], end), Err(Error::BadValue));
    assert_eq!(invoke_int(FreeCall::StartProcess, &[1, 2, 0x1000, 0x8001], end), Err(Error::BadValue));
    assert_eq!(invoke_int(FreeCall::StartProcess, &[1, 2, 0x1000], end), Err(Error::TooManyArgs));
}

#[test]
fn protection_of_a_reprotect_call() {
    for (word, mode) in [
        (0usize, ProtectionMode::UserRO),
        (1, ProtectionMode::UserRW),
        (2, ProtectionMode::UserRX),
        (0x103, ProtectionMode::UserRWX),
    ] {
        assert_eq!(
            invoke_int(FreeCall::MemReprotect, &[0x3000, word], 0),
            Ok(Request::MemReprotect { addr: 0x3000, protection: mode })
        );
    }
    assert_eq!(invoke_int(FreeCall::MemReprotect, &[0x3000, 4], 0), Err(Error::BadValue));
    assert_eq!(invoke_int(FreeCall::MemReprotect, &[0x3000], 0), Err(Error::TooManyArgs));
}
