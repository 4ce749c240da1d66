use lib::aml::{
    pkg_length, ArgObj, DebugObj, DualNamePath, LocalObj, NamePath, NameSeg, NameString, NullName, ParseError, SimpleName,
    SuperName, Target,
};
use lib::aml_data::{AmlString, ByteList, ComputationalData, DataObj, DataRefObj, List};
use lib::aml_expr::{DefIncrement, DefPkg, ExprOpcode, RefTypeOpcode};
use lib::aml_named::{
    AccessField, DefEvent, DefExternal, DefField, DefMutex, FieldElement, FieldList, NamedField, NamedObj, ReservedField,
};
use lib::aml_statement::StatementOpcode;
use lib::aml_term::{DefAlias, DefName, DefScope, TermObj};

fn seg(s: &[u8; 4]) -> [u8; 4] {
    *s
}

#[test]
fn name_seg_parses_four_name_characters() {
    match NameSeg::p(b"_SB_", 0) {
        Ok((NameSeg(s), 4)) => assert_eq!(s, seg(b"_SB_")),
        _ => panic!(),
    }
    assert!(matches!(NameSeg::p(b"_sb_", 0), Err(ParseError::Error)));
    assert!(matches!(NameSeg::p(b"1ABC", 0), Err(ParseError::Error)));
    assert!(matches!(NameSeg::p(b"AB", 0), Err(ParseError::Error)));
}

#[test]
fn name_strings() {
    match NameString::p(b"\\_SB_", 0) {
        Ok((NameString::Absolute(NamePath::NameSeg(NameSeg(s))), 5)) => assert_eq!(s, seg(b"_SB_")),
        _ => panic!(),
    }
    match NameString::p(b"^^_FOO", 0) {
        Ok((NameString::PathPrefixed(2, NamePath::NameSeg(NameSeg(s))), 6)) => assert_eq!(s, seg(b"_FOO")),
        _ => panic!(),
    }
    match NameString::p(&[0x2e, b'A', b'B', b'C', b'D', b'E', b'F', b'G', b'H'], 0) {
        Ok((NameString::Relative(NamePath::DualName(DualNamePath(NameSeg(a), NameSeg(b)))), 9)) => {
            assert_eq!(a, seg(b"ABCD"));
            assert_eq!(b, seg(b"EFGH"));
        },
        _ => panic!(),
    }
    assert!(matches!(NameString::p(&[0x00], 0), Ok((NameString::Relative(NamePath::NullName(NullName)), 1))));
    // the name path is committed to once the prefix is read
    assert!(matches!(NameString::p(b"\\a", 0), Err(ParseError::Failure)));
    assert!(matches!(NameString::p(b"a", 0), Err(ParseError::Failure)));
    assert!(matches!(NameString::p(&[0x2e, b'A'], 0), Err(ParseError::Failure)));
}

#[test]
fn args_locals_and_targets() {
    assert!(matches!(ArgObj::p(&[0x6a], 0), Ok((ArgObj::Arg2, 1))));
    assert!(matches!(ArgObj::p(&[0x6f], 0), Err(ParseError::Error)));
    assert!(matches!(LocalObj::p(&[0x67], 0), Ok((LocalObj::Local7, 1))));
    assert!(matches!(DebugObj::p(&[0x5b, 0x31], 0), Ok((DebugObj, 2))));
    assert!(matches!(SimpleName::p(&[0x60], 0), Ok((SimpleName::LocalObj(LocalObj::Local0), 1))));
    assert!(matches!(SuperName::p(&[0x69], 0), Ok((SuperName::SimpleName(SimpleName::ArgObj(ArgObj::Arg1)), 1))));
    assert!(matches!(Target::p(&[0x00], 0), Ok((Target::SuperName(SuperName::SimpleName(SimpleName::NameString(_))), 1))));
}

#[test]
fn package_lengths() {
    assert_eq!(pkg_length(&[0x05], 0), Ok((4, 1)));
    // one extra byte: low nibble 1, then 0x02 shifted by four
    assert_eq!(pkg_length(&[0x41, 0x02], 0), Ok((31, 2)));
    // three extra bytes
    assert_eq!(pkg_length(&[0xc0, 0x00, 0x00, 0x01], 0), Ok((0x10_0000 - 4, 4)));
    assert_eq!(pkg_length(&[0x00], 0), Err(ParseError::Error));
    assert_eq!(pkg_length(&[0x70, 0x01], 0), Err(ParseError::Error));
    assert_eq!(pkg_length(&[0x41], 0), Err(ParseError::Error));
    assert_eq!(pkg_length(&[], 0), Err(ParseError::Error));
}

#[test]
fn computational_data() {
    assert!(matches!(ComputationalData::p(&[0x0a, 0x05], 0), Ok((ComputationalData::ByteConst(5), 2))));
    assert!(matches!(ComputationalData::p(&[0x0b, 0x34, 0x12], 0), Ok((ComputationalData::WordConst(0x1234), 3))));
    assert!(matches!(
        ComputationalData::p(&[0x0c, 0x78, 0x56, 0x34, 0x12], 0),
        Ok((ComputationalData::DWordConst(0x1234_5678), 5))
    ));
    assert!(matches!(
        ComputationalData::p(&[0x0e, 1, 0, 0, 0, 0, 0, 0, 0x80], 0),
        Ok((ComputationalData::QWordConst(0x8000_0000_0000_0001), 9))
    ));
    assert!(matches!(
        ComputationalData::p(&[0x0d, b'A', b'B', 0, 7], 0),
        Ok((ComputationalData::String(AmlString { start: 1, end: 3 }), 4))
    ));
    assert!(matches!(ComputationalData::p(&[0x0d, b'A'], 0), Err(ParseError::Error)));
    assert!(matches!(ComputationalData::p(&[0x00], 0), Ok((ComputationalData::Zero, 1))));
    assert!(matches!(ComputationalData::p(&[0x01], 0), Ok((ComputationalData::One, 1))));
    assert!(matches!(ComputationalData::p(&[0xff], 0), Ok((ComputationalData::Ones, 1))));
    assert!(matches!(ComputationalData::p(&[0x5b, 0x30], 0), Ok((ComputationalData::Revision, 2))));
    assert!(matches!(ComputationalData::p(&[0x0b, 0x34], 0), Err(ParseError::Error)));
}

#[test]
fn def_name_binds_data() {
    let bytes = [0x08, b'_', b'H', b'I', b'D', 0x0a, 0x05];
    match DefName::p(&bytes, 0) {
        Ok((DefName { name: NameString::Relative(NamePath::NameSeg(NameSeg(n))), data }, 7)) => {
            assert_eq!(n, seg(b"_HID"));
            assert!(matches!(data, DataRefObj(DataObj::ComputationalData(ComputationalData::ByteConst(5)))));
        },
        _ => panic!(),
    }
    assert!(matches!(TermObj::p(&bytes, 0), Ok((TermObj::Obj(_), 7))));
}

#[test]
fn def_alias() {
    let bytes = [0x06, b'A', b'B', b'C', b'D', b'E', b'F', b'G', b'H'];
    assert!(matches!(DefAlias::p(&bytes, 0), Ok((DefAlias { .. }, 9))));
    assert!(matches!(DefAlias::p(&bytes[..5], 0), Err(ParseError::Failure)));
}

#[test]
fn term_lists_commit_to_a_name_at_their_end() {
    // the list inside the scope probes for one more term at its end, and a method call
    // there commits to a name that is not there
    let bytes = [0x10, 0x0d, 0x5c, b'_', b'S', b'B', b'_', 0x08, b'_', b'H', b'I', b'D', 0x0a, 0x05];
    assert!(matches!(DefScope::p(&bytes, 0), Err(ParseError::Failure)));
    assert!(matches!(DefScope::p(&bytes[..5], 0), Err(ParseError::Error)));
}

#[test]
fn def_field_with_named_fields() {
    let bytes = [0x5b, 0x81, 0x0b, b'R', b'E', b'G', b'0', 0x01, b'F', b'L', b'D', b'0', 0x08];
    match NamedObj::p(&bytes, 0) {
        Ok((NamedObj::DefField(DefField { flags, fields: FieldList(List::Cons(first, rest)), .. }), 13)) => {
            assert_eq!(flags.0, 1);
            assert!(matches!(*first, FieldElement::NamedField(NamedField(_, 7))));
            assert!(matches!(*rest, List::Nil));
        },
        _ => panic!(),
    }
    // a package that ends before the field list does
    let short = [0x5b, 0x81, 0x0a, b'R', b'E', b'G', b'0', 0x01, b'F', b'L', b'D', b'0', 0x08];
    assert!(matches!(DefField::p(&short, 0), Err(ParseError::Failure)));
}

#[test]
fn field_elements() {
    assert!(matches!(ReservedField::p(&[0x00, 0x02, 0xaa], 0), Ok((ReservedField, 3))));
    assert!(matches!(NamedField::p(b"ABCD\x08", 0), Ok((NamedField(_, 7), 5))));
    assert!(matches!(NamedField::p(b"ABCD", 0), Err(ParseError::Failure)));
    match AccessField::p(&[0x01, 0x05, 0x06], 0) {
        Ok((AccessField { ty, attrib }, 3)) => {
            assert_eq!(ty.0, 5);
            assert_eq!(attrib.0, 6);
        },
        _ => panic!(),
    }
    assert!(matches!(AccessField::p(&[0x01], 0), Err(ParseError::Failure)));
    assert!(matches!(FieldList::p(&[], 0), Ok((FieldList(List::Nil), 0))));
}

#[test]
fn named_objects_without_terms() {
    match DefExternal::p(&[0x15, b'E', b'X', b'T', b'0', 0x08, 0x02], 0) {
        Ok((DefExternal { obj_type, argument_count, .. }, 7)) => {
            assert_eq!(obj_type, 8);
            assert_eq!(argument_count, 2);
        },
        _ => panic!(),
    }
    assert!(matches!(DefExternal::p(&[0x15, b'E', b'X', b'T', b'0'], 0), Err(ParseError::Failure)));
    assert!(matches!(DefMutex::p(&[0x5b, 0x01, b'M', b'U', b'T', b'0', 0x03], 0), Ok((DefMutex { .. }, 7))));
    assert!(matches!(DefEvent::p(&[0x5b, 0x02, b'E', b'V', b'T', b'0'], 0), Ok((DefEvent { .. }, 6))));
}

#[test]
fn expressions_on_names() {
    match ExprOpcode::p(&[0x75, 0x60], 0) {
        Ok((ExprOpcode::DefIncrement(DefIncrement { name }), 2)) => {
            assert!(matches!(name, SuperName::SimpleName(SimpleName::LocalObj(LocalObj::Local0))));
        },
        _ => panic!(),
    }
    assert!(matches!(ExprOpcode::p(&[0x5b, 0x33], 0), Ok((ExprOpcode::DefTimer(_), 2))));
    assert!(matches!(ExprOpcode::p(&[0x87, 0x61], 0), Ok((ExprOpcode::DefSizeOf(_), 2))));
    assert!(matches!(RefTypeOpcode::p(&[0x71, 0x62], 0), Ok((RefTypeOpcode::DefRefOf(_), 2))));
    assert!(matches!(ExprOpcode::p(&[0x5b, 0x23, 0x60, 0xff], 0), Ok((ExprOpcode::DefAcquire(_), 4))));
    // an operand is tried as an expression first, and a method call commits to a name
    assert!(matches!(ExprOpcode::p(&[0x70, 0x0a, 0x05, 0x60], 0), Err(ParseError::Failure)));
    assert!(matches!(ExprOpcode::p(&[0x75], 0), Err(ParseError::Failure)));
}

#[test]
fn statements() {
    assert!(matches!(StatementOpcode::p(&[0xa5], 0), Ok((StatementOpcode::DefBreak(_), 1))));
    assert!(matches!(StatementOpcode::p(&[0xcc], 0), Ok((StatementOpcode::DefBreakPoint(_), 1))));
    assert!(matches!(StatementOpcode::p(&[0x9f], 0), Ok((StatementOpcode::DefContinue(_), 1))));
    assert!(matches!(StatementOpcode::p(&[0xa3], 0), Ok((StatementOpcode::DefNoop(_), 1))));
    assert!(matches!(StatementOpcode::p(&[0x5b, 0x27, 0x60], 0), Ok((StatementOpcode::DefRelease(_), 3))));
    assert!(matches!(StatementOpcode::p(&[0x5b, 0x26, 0x60], 0), Ok((StatementOpcode::DefReset(_), 3))));
    assert!(matches!(StatementOpcode::p(&[0x5b, 0x24, 0x60], 0), Ok((StatementOpcode::DefSignal(_), 3))));
    assert!(matches!(StatementOpcode::p(&[0x42], 0), Err(ParseError::Error)));
    assert!(matches!(TermObj::p(&[0xa5], 0), Ok((TermObj::StatementOpcode(_), 1))));
}

#[test]
fn packages_commit_to_a_name_at_their_end() {
    let bytes = [0x12, 0x04, 0x01, 0x0a, 0x07];
    assert!(matches!(DefPkg::p(&bytes, 0), Err(ParseError::Failure)));
    assert!(matches!(DataObj::p(&bytes, 0), Err(ParseError::Failure)));
}

#[test]
fn byte_lists_take_the_rest() {
    assert!(matches!(ByteList::p(&[1, 2, 3], 1), Ok((ByteList { start: 1, end: 3 }, 3))));
}
