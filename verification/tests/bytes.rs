use oxbow::abi::{IdentRec, MsgBuf, SysError, TAG_FS_OPEN, TAG_PING, TAG_TTY_WRITE};
use oxbow::bytes::{copy_field, nul_len, read_be16, read_le16, read_le32, read_le64, to_le64};

#[test]
fn number_round_trip() {
    let v: u64 = 0x0123_4567_89AB_CDEF;
    assert_eq!(to_le64(v), [0xEF, 0xCD, 0xAB, 0x89, 0x67, 0x45, 0x23, 0x01]);
    assert_eq!(read_le64(&to_le64(v), 0), v);
}

#[test]
fn numbers_in_bytes() {
    let b = [1u8, 2, 3, 4, 5, 6, 7, 8, 9];
    assert_eq!(read_le16(&b, 0), 0x0201);
    assert_eq!(read_le32(&b, 1), 0x0504_0302);
    assert_eq!(read_le64(&b, 1), 0x0908_0706_0504_0302);
    assert_eq!(read_be16(&b, 3), 0x0405);
}

#[test]
fn text_ends_at_first_zero() {
    assert_eq!(nul_len(b"abc\0def"), 3);
    assert_eq!(nul_len(b"abc"), 3);
    assert_eq!(nul_len(b"\0abc"), 0);
    assert_eq!(nul_len(b""), 0);
}

#[test]
fn fields_are_cut_and_padded() {
    let mut f = [9u8; 4];
    copy_field(&mut f, b"ab");
    assert_eq!(f, [b'a', b'b', 0, 0]);
    copy_field(&mut f, b"abcdef");
    assert_eq!(&f, b"abcd");
}

#[test]
fn errors_round_trip() {
    let all = [
        SysError::BadHandle,
        SysError::BadType,
        SysError::Rights,
        SysError::Fault,
        SysError::Msg,
        SysError::NoSlots,
        SysError::NoMem,
        SysError::Gone,
        SysError::WouldBlock,
        SysError::Nosys,
    ];
    for (i, e) in all.iter().enumerate() {
        assert_eq!(e.code(), i as u64 + 1);
        assert_eq!(SysError::from_raw(e.code()), Err(*e));
    }
    assert_eq!(SysError::from_raw(0), Ok(()));
    assert_eq!(SysError::from_raw(77), Err(SysError::Nosys));
}

#[test]
fn tags_spell_their_names() {
    assert_eq!(TAG_PING, u32::from_le_bytes(*b"PING") as u64);
    assert_eq!(TAG_FS_OPEN, u32::from_le_bytes(*b"FSOP") as u64);
    assert_eq!(TAG_TTY_WRITE, u32::from_le_bytes(*b"WRIT") as u64);
}

#[test]
fn fresh_message_is_empty() {
    let m = MsgBuf::new(TAG_PING);
    assert_eq!(m.tag, TAG_PING);
    assert_eq!(m.data_len, 0);
    assert_eq!(m.handle_count, 0);
    assert_eq!(m.data, [0u64; 8]);
    assert_eq!(m.handles, [0u32; 4]);
    assert_eq!(m.badge, 0);
}

#[test]
fn identity_records() {
    let r = IdentRec::zeroed();
    assert_eq!(r.uid, 0);
    assert_eq!(r.name_bytes(), b"");
    let mut r = IdentRec::new(7, 8, b"ann", b"/home/ann");
    assert_eq!((r.uid, r.gid), (7, 8));
    assert_eq!(r.name_bytes(), b"ann");
    assert_eq!(r.home_bytes(), b"/home/ann");
    r.add_group(100);
    assert_eq!(r.groups[0], 100);
    assert_eq!(r.groups[1..], [0u32; 15]);
    for g in 1..20u32 {
        r.add_group(100 + g);
    }
    assert_eq!(r.ngroups, 16);
    assert_eq!(r.groups[15], 115);
    r.set_name(&[b'x'; 40]);
    assert_eq!(r.name_bytes().len(), 32);
}
