use aloe::portal::{
    admit_syscall, is_reserved_id, pack_halves, read_reply, SyscallAdmission, SyscallReply,
    SYSCALL_BAD_RESP, SYSCALL_CALLER_ID,
};
use aloe::portal::{
    to_const_name, to_enum_name, to_module_name, PortalMacro, ProtocolEndpoint, ProtocolEndpointKind, ProtocolEnumFields,
    ProtocolVarType,
};
use aloe::portal::{GenericArgShape, PathArgsShape, TypeError, TypeShape};
use aloe::portal::{read_endpoint_attrs, AttrShape, AttrValue, EndpointError, EndpointKind, EndpointNote};

fn text(chars: Vec<char>) -> String {
    chars.into_iter().collect()
}

#[test]
fn module_name_is_snake_case() {
    assert_eq!(text(to_module_name("HelloPortal")), "hello_portal");
    assert_eq!(text(to_module_name("ABC")), "a_b_c");
    assert_eq!(text(to_module_name("already_small")), "already_small");
    assert_eq!(text(to_module_name("")), "");
}

#[test]
fn enum_name_is_capitalised_words() {
    assert_eq!(text(to_enum_name("get_pid")), "GetPidPortal");
    assert_eq!(text(to_enum_name("_leading__double")), "LeadingDoublePortal");
    assert_eq!(text(to_enum_name("SHOUT")), "ShoutPortal");
    assert_eq!(text(to_enum_name("")), "Portal");
}

fn portal(ids: &[usize]) -> PortalMacro {
    PortalMacro { endpoints: ids.iter().map(|&portal_id| ProtocolEndpoint { portal_id, kind: ProtocolEndpointKind::Event }).collect() }
}

#[test]
fn highest_endpoint_id() {
    assert_eq!(portal(&[]).highest_id(), 0);
    assert_eq!(portal(&[3, 9, 2]).highest_id(), 9);
}

#[test]
fn repeated_endpoint_ids() {
    assert!(portal(&[1, 2, 3]).all_non_unique_portal_ids().is_empty());
    assert_eq!(
        portal(&[1, 2, 1, 2, 1]).all_non_unique_portal_ids(),
        vec![(1, 0, 2), (2, 1, 3), (1, 2, 4)]
    );
}

#[test]
fn lifetimes_follow_references() {
    let by_ref = ProtocolVarType::RefTo { is_mut: false, to: Box::new(ProtocolVarType::Str) };
    let behind_ptr = ProtocolVarType::PtrTo {
        is_mut: true,
        to: Box::new(ProtocolVarType::RefTo { is_mut: false, to: Box::new(ProtocolVarType::Unit) }),
    };
    let result = ProtocolVarType::ResultKind {
        ok_ty: Box::new(ProtocolVarType::Unsigned64),
        err_ty: Box::new(ProtocolVarType::UserDefined("Error".to_string())),
    };
    assert!(by_ref.has_reference());
    assert!(behind_ptr.has_reference());
    assert!(!result.has_reference());

    assert!(!ProtocolEnumFields::Empty.requires_lifetime());
    assert!(!ProtocolEnumFields::Unnamed(vec![ProtocolVarType::Unit, result]).requires_lifetime());
    assert!(ProtocolEnumFields::Named(vec![("name".to_string(), by_ref)]).requires_lifetime());
}

#[test]
fn syscall_ids_pack_and_read_back() {
    let id = pack_halves(3, 7);
    assert_eq!(id, 0x3_0000_0007);
    assert!(!is_reserved_id(id));
    assert!(is_reserved_id(pack_halves(0, 1)));
    assert_eq!(read_reply(0), SyscallReply::Okay);
    assert_eq!(read_reply(1), SyscallReply::NotUnderstood);
    assert_eq!(read_reply(id), SyscallReply::VersionMismatch { input: 3, output: 7 });

    assert_eq!(admit_syscall(2, 8, 8, id, id, true), SyscallAdmission::Refuse(SYSCALL_BAD_RESP));
    assert_eq!(admit_syscall(SYSCALL_CALLER_ID, 8, 16, id, id, true), SyscallAdmission::Refuse(SYSCALL_BAD_RESP));
    assert_eq!(admit_syscall(SYSCALL_CALLER_ID, 8, 8, id, 5, true), SyscallAdmission::Refuse(id));
    assert_eq!(admit_syscall(SYSCALL_CALLER_ID, 8, 8, id, id, false), SyscallAdmission::Refuse(SYSCALL_BAD_RESP));
    assert_eq!(admit_syscall(SYSCALL_CALLER_ID, 8, 8, id, id, true), SyscallAdmission::Run);
}

#[test]
fn const_name_is_capitals_and_id() {
    assert_eq!(text(to_const_name("get_pid", "EVENT")), "GET_PID_ID_EVENT");
    assert_eq!(text(to_const_name("", "")), "_ID_");
}

fn path(name: &str, args: PathArgsShape) -> TypeShape {
    TypeShape::Path { last: Some((name.to_string(), args)) }
}

#[test]
fn written_types_become_portal_types() {
    assert!(matches!(ProtocolVarType::try_from(path("u32", PathArgsShape::Plain)), Ok(ProtocolVarType::Unsigned32)));
    assert!(matches!(ProtocolVarType::try_from(path("str", PathArgsShape::Plain)), Ok(ProtocolVarType::Str)));
    assert!(matches!(ProtocolVarType::try_from(TypeShape::Never), Ok(ProtocolVarType::Never)));
    assert!(matches!(ProtocolVarType::try_from(TypeShape::Tuple { elems: 0 }), Ok(ProtocolVarType::Unit)));
    assert!(matches!(
        ProtocolVarType::try_from(TypeShape::Tuple { elems: 2 }),
        Err(TypeError::NotSupported)
    ));
    match ProtocolVarType::try_from(path("MyType", PathArgsShape::Plain)) {
        Ok(ProtocolVarType::UserDefined(name)) => assert_eq!(name, "MyType"),
        other => panic!("unexpected {:?}", other),
    }
    let reference = TypeShape::Reference {
        is_mut: true,
        elem: Box::new(path("u8", PathArgsShape::Plain)),
    };
    match ProtocolVarType::try_from(reference) {
        Ok(ProtocolVarType::RefTo { is_mut: true, to }) => {
            assert!(matches!(*to, ProtocolVarType::Unsigned8))
        },
        other => panic!("unexpected {:?}", other),
    }
}

#[test]
fn result_types_need_two_type_arguments() {
    let args = PathArgsShape::AngleBracketed(vec![
        GenericArgShape::Type(path("u64", PathArgsShape::Plain)),
        GenericArgShape::Type(path("i8", PathArgsShape::Plain)),
    ]);
    match ProtocolVarType::try_from(path("Result", args)) {
        Ok(ProtocolVarType::ResultKind { ok_ty, err_ty }) => {
            assert!(matches!(*ok_ty, ProtocolVarType::Unsigned64));
            assert!(matches!(*err_ty, ProtocolVarType::Signed8));
        },
        other => panic!("unexpected {:?}", other),
    }
    let one = PathArgsShape::AngleBracketed(vec![GenericArgShape::Type(path("u64", PathArgsShape::Plain))]);
    assert!(matches!(
        ProtocolVarType::try_from(path("Result", one)),
        Err(TypeError::OnlyTwoGenericArguments)
    ));
    assert!(matches!(
        ProtocolVarType::try_from(path("Result", PathArgsShape::Plain)),
        Err(TypeError::InvalidSyntax)
    ));
    assert!(matches!(ProtocolVarType::try_from(TypeShape::Path { last: None }), Err(TypeError::NotSupported)));
}

#[test]
fn endpoint_attributes_give_its_kind() {
    let attrs = vec![AttrShape::Doc, AttrShape::Event(Some(AttrValue::Int(4))), AttrShape::Doc];
    let read = read_endpoint_attrs(&attrs, 0).unwrap();
    assert_eq!(read.docs, vec![0, 2]);
    assert_eq!(read.endpoint, EndpointKind::Event(4));
    assert!(read.notes.is_empty());
}

#[test]
fn endpoint_attributes_complain() {
    let attrs = vec![
        AttrShape::Event(Some(AttrValue::Int(1))),
        AttrShape::Handle(Some(AttrValue::Int(2))),
        AttrShape::Handle(Some(AttrValue::OtherLiteral)),
        AttrShape::Other,
    ];
    let read = read_endpoint_attrs(&attrs, 1).unwrap();
    assert_eq!(read.endpoint, EndpointKind::Handle(2));
    assert_eq!(
        read.notes,
        vec![
            EndpointNote::EventAndHandle,
            EndpointNote::MultipleHandles,
            EndpointNote::BadValue(AttrValue::OtherLiteral),
            EndpointNote::UnsupportedAttribute,
            EndpointNote::SelfArgument,
        ]
    );
    let none = read_endpoint_attrs(&vec![AttrShape::Doc], 0).unwrap();
    assert_eq!(none.endpoint, EndpointKind::Unknown);
    assert_eq!(none.notes, vec![EndpointNote::MissingKind]);
    assert!(matches!(
        read_endpoint_attrs(&vec![AttrShape::Handle(None)], 0),
        Err(EndpointError::NotNameValue)
    ));
}
