use dojo::abi;
use dojo::computed_values::{
    check_manifest, computed_value_call, computed_value_entrypoints,
    function_return_type_from_abi, get_selector_from_name, primitive_from_path,
    resolve_return_type, find_entrypoint, ComputedValueCall, ComputedValueError, Defect,
};
use dojo::field_element::FieldElement;
use dojo::manifest::{ComputedValueEntrypoint, Contract, Manifest};
use dojo::model_calls::ComputedValues;
use dojo::schema::{Primitive, Ty};

fn function(name: &str, outputs: &[&str]) -> abi::Item {
    let outputs = outputs.iter().map(|ty| abi::Output { ty: ty.to_string() }).collect();
    abi::Item::Function(abi::Function { name: name.to_string(), outputs })
}

fn interface(items: Vec<abi::Item>) -> Option<abi::Contract> {
    Some(abi::Contract { items })
}

fn entry(entrypoint: &str, model: Option<&str>) -> ComputedValueEntrypoint {
    ComputedValueEntrypoint {
        entrypoint: entrypoint.to_string(),
        model: model.map(|m| m.to_string()),
    }
}

fn felt(byte: u8) -> FieldElement {
    let mut bytes = [0; 32];
    bytes[31] = byte;
    FieldElement { bytes }
}

fn hex(text: &str) -> FieldElement {
    let element = starknet::core::types::FieldElement::from_hex_be(text).unwrap();
    FieldElement { bytes: element.to_bytes_be() }
}

const EXECUTE: &str = "0x0240060cdb34fcc260f41eac7474ee1d7c80b7e3607daff9ac67c7ea2ebb1c44";
const TRANSFER: &str = "0x0083afd3f4caedc6eebf44246fe54e38c95e3179a5ec9ea81740eca5b482d12e";

#[test]
fn selectors_are_those_of_starknet() {
    assert_eq!(get_selector_from_name("execute"), Ok(hex(EXECUTE)));
    assert_eq!(get_selector_from_name("transfer"), Ok(hex(TRANSFER)));
    assert_eq!(get_selector_from_name("__default__"), Ok(felt(0)));
    assert_eq!(get_selector_from_name("__l1_default__"), Ok(felt(0)));
    assert_eq!(
        get_selector_from_name("\u{1f980}"),
        Err(ComputedValueError::NonAsciiEntrypoint)
    );
    for name in ["", "a", "execute", "transfer", "constructor"] {
        assert!(get_selector_from_name(name).unwrap().bytes[0] < 4);
    }
}

#[test]
fn primitives_have_their_paths() {
    let expected = [
        ("core::integer::u8", Primitive::U8(None)),
        ("core::integer::u16", Primitive::U16(None)),
        ("core::integer::u32", Primitive::U32(None)),
        ("core::integer::u64", Primitive::U64(None)),
        ("core::integer::u128", Primitive::U128(None)),
        ("core::integer::u256", Primitive::U256(None)),
        ("core::bool", Primitive::Bool(None)),
        ("core::felt252", Primitive::Felt252(None)),
        ("core::starknet::class_hash::ClassHash", Primitive::ClassHash(None)),
        (
            "core::starknet::contract_address::ContractAddress",
            Primitive::ContractAddress(None),
        ),
    ];
    for (path, primitive) in expected {
        assert_eq!(primitive_from_path(&path.to_string()), Some(primitive));
        let abi = interface(vec![function("f", &[path])]);
        assert_eq!(
            function_return_type_from_abi(&entry("f", None), &abi),
            Ty::Primitive(primitive)
        );
    }
    for path in ["", "u8", "core::integer::u512", "core::integer::u8 ", "core::bool::bool"] {
        assert_eq!(primitive_from_path(&path.to_string()), None);
    }
}

#[test]
fn the_first_function_of_the_name_decides() {
    let abi = interface(vec![
        abi::Item::Other,
        function("g", &["core::bool"]),
        function("f", &["core::integer::u8", "core::bool"]),
        function("f", &["core::felt252"]),
    ]);
    assert_eq!(
        function_return_type_from_abi(&entry("f", Some("M")), &abi),
        Ty::Primitive(Primitive::U8(None))
    );
    assert_eq!(
        function_return_type_from_abi(&entry("g", Some("M")), &abi),
        Ty::Primitive(Primitive::Bool(None))
    );
}

#[test]
fn an_unknown_interface_returns_the_empty_tuple() {
    assert_eq!(function_return_type_from_abi(&entry("f", None), &None), Ty::Tuple(Vec::new()));
}

#[test]
fn return_types_can_be_missing() {
    let resolve = |items: Vec<abi::Item>| resolve_return_type(&entry("f", None), &interface(items));
    assert_eq!(resolve(Vec::new()), Err(ComputedValueError::UnknownEntrypoint));
    assert_eq!(
        resolve(vec![abi::Item::Other, function("g", &["core::bool"])]),
        Err(ComputedValueError::UnknownEntrypoint)
    );
    assert_eq!(
        resolve(vec![function("f", &[]), function("f", &["core::bool"])]),
        Err(ComputedValueError::NoOutput)
    );
    assert_eq!(
        resolve(vec![function("f", &["core::array::Array"])]),
        Err(ComputedValueError::UnsupportedType)
    );
}

fn manifest() -> Manifest {
    Manifest {
        contracts: vec![
            Contract {
                address: Some(felt(1)),
                abi: interface(vec![
                    function("execute", &["core::integer::u8"]),
                    function("transfer", &["core::bool"]),
                ]),
                computed: vec![
                    entry("execute", Some("Position")),
                    entry("missing", None),
                    entry("transfer", Some("Moves")),
                    entry("transfer", Some("Position")),
                ],
            },
            Contract { address: None, abi: None, computed: vec![entry("\u{1f980}", None)] },
            Contract {
                address: Some(felt(2)),
                abi: None,
                computed: vec![entry("execute", Some("Position"))],
            },
        ],
    }
}

fn call(address: u8, selector: &str, return_type: Ty) -> ComputedValueCall {
    ComputedValueCall {
        contract_address: felt(address),
        entry_point_selector: hex(selector),
        return_type,
    }
}

#[test]
fn calls_are_listed_by_model_in_order() {
    let manifest = manifest();
    assert_eq!(check_manifest(&manifest), Ok(()));
    let values = computed_value_entrypoints(&Some(manifest));
    assert_eq!(
        values.get(&"Position".to_string()),
        Some(&vec![
            call(1, EXECUTE, Ty::Primitive(Primitive::U8(None))),
            call(1, TRANSFER, Ty::Primitive(Primitive::Bool(None))),
            call(2, EXECUTE, Ty::Tuple(Vec::new())),
        ])
    );
    assert_eq!(
        values.get(&"Moves".to_string()),
        Some(&vec![call(1, TRANSFER, Ty::Primitive(Primitive::Bool(None)))])
    );
    assert_eq!(values.get(&"Other".to_string()), None);
    let entries = values.into_entries();
    assert_eq!(entries.len(), 2);
    assert!(entries.iter().all(|(_, calls)| !calls.is_empty()));
}

#[test]
fn without_a_manifest_there_are_no_calls() {
    assert!(computed_value_entrypoints(&None).into_entries().is_empty());
    let empty = Manifest { contracts: Vec::new() };
    assert_eq!(check_manifest(&empty), Ok(()));
    assert!(computed_value_entrypoints(&Some(empty)).into_entries().is_empty());
}

#[test]
fn a_call_takes_the_selector_it_is_given() {
    let manifest = manifest();
    let contract = &manifest.contracts[0];
    assert_eq!(
        computed_value_call(contract, &contract.computed[2], felt(9)),
        ComputedValueCall {
            contract_address: felt(1),
            entry_point_selector: felt(9),
            return_type: Ty::Primitive(Primitive::Bool(None)),
        }
    );
}

#[test]
fn recording_keeps_models_apart() {
    let one = || call(1, EXECUTE, Ty::Tuple(Vec::new()));
    let two = || call(2, TRANSFER, Ty::Primitive(Primitive::Bool(None)));
    let mut values = ComputedValues::new();
    assert_eq!(values.get(&"A".to_string()), None);
    values.record("A".to_string(), one());
    values.record("B".to_string(), one());
    values.record("A".to_string(), two());
    values.record("A".to_string(), one());
    assert_eq!(values.get(&"A".to_string()), Some(&vec![one(), two(), one()]));
    assert_eq!(values.get(&"B".to_string()), Some(&vec![one()]));
    assert_eq!(values.into_entries().len(), 2);
}

#[test]
fn the_first_defect_is_reported() {
    let check = |address: Option<FieldElement>, abi, computed| {
        check_manifest(&Manifest {
            contracts: vec![
                Contract { address: None, abi: None, computed: Vec::new() },
                Contract { address, abi, computed },
            ],
        })
    };
    let defect = |entry, error| Err(Defect { contract: 1, entry, error });
    assert_eq!(check(None, None, vec![entry("f", None)]), Ok(()));
    assert_eq!(
        check(None, None, vec![entry("f", None), entry("f", Some("M"))]),
        defect(1, ComputedValueError::NoAddress)
    );
    assert_eq!(
        check(Some(felt(1)), None, vec![entry("f", Some("M")), entry("\u{e9}", Some("M"))]),
        defect(1, ComputedValueError::NonAsciiEntrypoint)
    );
    assert_eq!(
        check(None, None, vec![entry("\u{e9}", Some("M"))]),
        defect(0, ComputedValueError::NoAddress)
    );
    assert_eq!(
        check(None, interface(Vec::new()), vec![entry("\u{e9}", Some("M"))]),
        defect(0, ComputedValueError::UnknownEntrypoint)
    );
    assert_eq!(
        check(
            Some(felt(1)),
            interface(vec![function("f", &[]), function("g", &["felt"])]),
            vec![entry("g", Some("M")), entry("f", Some("M"))]
        ),
        defect(0, ComputedValueError::UnsupportedType)
    );
    assert_eq!(
        check(Some(felt(1)), interface(vec![function("f", &[])]), vec![entry("f", Some("M"))]),
        defect(0, ComputedValueError::NoOutput)
    );
}

#[test]
fn entrypoints_are_found_by_name() {
    let abi = abi::Contract {
        items: vec![
            abi::Item::Other,
            function("g", &[]),
            function("f", &["felt"]),
            function("f", &["core::bool"]),
        ],
    };
    assert_eq!(find_entrypoint(&entry("f", None), &abi).unwrap().outputs[0].ty, "felt");
    assert!(find_entrypoint(&entry("g", None), &abi).unwrap().outputs.is_empty());
    assert!(find_entrypoint(&entry("h", None), &abi).is_none());
}
