//! The values of models that contracts compute: which function of which contract computes them,
//! and of what type they are.
use vstd::prelude::*;
use vstd::utf8::is_ascii_chars;

use crate::abi;
use crate::field_element::FieldElement;
use crate::manifest::{ComputedValueEntrypoint, Contract, Manifest};
use crate::model_calls::ComputedValues;
use crate::schema::{Primitive, Ty, TyView};

verus! {

/// How a computed value is obtained.
#[derive(Debug, PartialEq, Eq)]
pub struct ComputedValueCall {
    pub contract_address: FieldElement,
    pub entry_point_selector: FieldElement,
    pub return_type: Ty,
}

/// The mathematical form of a [`ComputedValueCall`].
pub struct Call {
    pub contract_address: Seq<u8>,
    pub entry_point_selector: Seq<u8>,
    pub return_type: TyView,
}

impl View for ComputedValueCall {
    type V = Call;

    open spec fn view(&self) -> Call {
        Call {
            contract_address: self.contract_address@,
            entry_point_selector: self.entry_point_selector@,
            return_type: self.return_type@,
        }
    }
}

/// Why no call can be made of an entry of a manifest.
#[derive(Clone, Copy, Debug, PartialEq, Eq, Structural)]
pub enum ComputedValueError {
    /// The contract's interface has no function of that name.
    UnknownEntrypoint,
    /// The function returns nothing.
    NoOutput,
    /// The function returns something else than a primitive value.
    UnsupportedType,
    /// The contract has no address.
    NoAddress,
    /// The function's name holds a character that is not ASCII.
    NonAsciiEntrypoint,
}

/// The selector of a function, as 32 bytes, the most significant first.
pub uninterp spec fn selector(name: Seq<char>) -> Seq<u8>;

/// The field element zero.
pub open spec fn zero() -> Seq<u8> {
    Seq::new(32, |i: int| 0u8)
}

/// The error of `starknet::core::utils::get_selector_from_name`.
#[verifier::external_type_specification]
#[verifier::external_body]
pub struct ExNonAsciiNameError(starknet::core::utils::NonAsciiNameError);

/// `starknet::core::utils::get_selector_from_name`: it fails exactly where the name holds a
/// character that is not ASCII, and its result depends on the name alone. Of the result, a hash,
/// the highest six bits are clear; the names of the two default entry points give zero.
#[verifier::external_body]
fn selector_from_name(name: &str) -> (r: Result<
    [u8; 32],
    starknet::core::utils::NonAsciiNameError,
>)
    ensures
        r is Ok <==> is_ascii_chars(name@),
        r matches Ok(bytes) ==> bytes@ == selector(name@) && bytes@[0] < 4,
        name@ == "__default__"@ || name@ == "__l1_default__"@ ==> (r matches Ok(bytes) ==> bytes@
            == zero()),
{
    starknet::core::utils::get_selector_from_name(name).map(|selector| selector.to_bytes_be())
}

/// Finds the selector of a function. It has at most 250 bits, and the default entry points have
/// the selector zero.
pub fn get_selector_from_name(name: &str) -> (r: Result<FieldElement, ComputedValueError>)
    ensures
        match r {
            Ok(element) => {
                &&& is_ascii_chars(name@)
                &&& element@ == selector(name@)
                &&& element@[0] < 4
                &&& name@ == "__default__"@ || name@ == "__l1_default__"@ ==> element@ == zero()
                &&& element.bytes@ == selector(name@)
                &&& element.bytes@[0] < 4
                &&& name@ == "__default__"@ || name@ == "__l1_default__"@ ==> forall|i: int|
                    0 <= i < 32 ==> #[trigger] element.bytes@[i] == 0
            },
            Err(error) => !is_ascii_chars(name@) && error
                == ComputedValueError::NonAsciiEntrypoint,
        },
{
    match selector_from_name(name) {
        Ok(bytes) => Ok(FieldElement { bytes }),
        Err(_) => Err(ComputedValueError::NonAsciiEntrypoint),
    }
}

/// The primitive type that Cairo calls by a full path.
pub open spec fn primitive(path: Seq<char>) -> Option<Primitive> {
    if path == "core::integer::u8"@ {
        Some(Primitive::U8(None))
    } else if path == "core::integer::u16"@ {
        Some(Primitive::U16(None))
    } else if path == "core::integer::u32"@ {
        Some(Primitive::U32(None))
    } else if path == "core::integer::u64"@ {
        Some(Primitive::U64(None))
    } else if path == "core::integer::u128"@ {
        Some(Primitive::U128(None))
    } else if path == "core::integer::u256"@ {
        Some(Primitive::U256(None))
    } else if path == "core::bool"@ {
        Some(Primitive::Bool(None))
    } else if path == "core::felt252"@ {
        Some(Primitive::Felt252(None))
    } else if path == "core::starknet::class_hash::ClassHash"@ {
        Some(Primitive::ClassHash(None))
    } else if path == "core::starknet::contract_address::ContractAddress"@ {
        Some(Primitive::ContractAddress(None))
    } else {
        None
    }
}

/// The first function of that name.
pub open spec fn find_function(items: Seq<abi::Item>, name: Seq<char>) -> Option<abi::Function>
    decreases items.len(),
{
    if items.len() == 0 {
        None
    } else {
        match items[0] {
            abi::Item::Function(function) if function.name@ == name => Some(function),
            _ => find_function(items.drop_first(), name),
        }
    }
}

/// The type that a function's interface says it returns, or why there is none. A contract whose
/// interface is not known returns the empty tuple.
pub open spec fn return_type(name: Seq<char>, abi: Option<abi::Contract>) -> Result<
    TyView,
    ComputedValueError,
> {
    match abi {
        None => Ok(TyView::Tuple(Seq::empty())),
        Some(contract) => match find_function(contract.items@, name) {
            None => Err(ComputedValueError::UnknownEntrypoint),
            Some(function) => if function.outputs@.len() == 0 {
                Err(ComputedValueError::NoOutput)
            } else {
                match primitive(function.outputs@[0].ty@) {
                    Some(p) => Ok(TyView::Primitive(p)),
                    None => Err(ComputedValueError::UnsupportedType),
                }
            },
        },
    }
}

/// Finds the primitive type that Cairo calls by a full path.
pub fn primitive_from_path(path: &String) -> (r: Option<Primitive>)
    ensures
        r == primitive(path@),
        r == Some(Primitive::U8(None)) <==> path@ == "core::integer::u8"@,
        r == Some(Primitive::U16(None)) <==> path@ == "core::integer::u16"@,
        r == Some(Primitive::U32(None)) <==> path@ == "core::integer::u32"@,
        r == Some(Primitive::U64(None)) <==> path@ == "core::integer::u64"@,
        r == Some(Primitive::U128(None)) <==> path@ == "core::integer::u128"@,
        r == Some(Primitive::U256(None)) <==> path@ == "core::integer::u256"@,
        r == Some(Primitive::Bool(None)) <==> path@ == "core::bool"@,
        r == Some(Primitive::Felt252(None)) <==> path@ == "core::felt252"@,
        r == Some(Primitive::ClassHash(None)) <==> path@
            == "core::starknet::class_hash::ClassHash"@,
        r == Some(Primitive::ContractAddress(None)) <==> path@
            == "core::starknet::contract_address::ContractAddress"@,
        r is Some ==> {
            ||| path@ == "core::integer::u8"@
            ||| path@ == "core::integer::u16"@
            ||| path@ == "core::integer::u32"@
            ||| path@ == "core::integer::u64"@
            ||| path@ == "core::integer::u128"@
            ||| path@ == "core::integer::u256"@
            ||| path@ == "core::bool"@
            ||| path@ == "core::felt252"@
            ||| path@ == "core::starknet::class_hash::ClassHash"@
            ||| path@ == "core::starknet::contract_address::ContractAddress"@
        },
{
    proof {
        law_primitives_have_their_paths(path@);
    }
    if *path == "core::integer::u8".to_string() {
        Some(Primitive::U8(None))
    } else if *path == "core::integer::u16".to_string() {
        Some(Primitive::U16(None))
    } else if *path == "core::integer::u32".to_string() {
        Some(Primitive::U32(None))
    } else if *path == "core::integer::u64".to_string() {
        Some(Primitive::U64(None))
    } else if *path == "core::integer::u128".to_string() {
        Some(Primitive::U128(None))
    } else if *path == "core::integer::u256".to_string() {
        Some(Primitive::U256(None))
    } else if *path == "core::bool".to_string() {
        Some(Primitive::Bool(None))
    } else if *path == "core::felt252".to_string() {
        Some(Primitive::Felt252(None))
    } else if *path == "core::starknet::class_hash::ClassHash".to_string() {
        Some(Primitive::ClassHash(None))
    } else if *path == "core::starknet::contract_address::ContractAddress".to_string() {
        Some(Primitive::ContractAddress(None))
    } else {
        None
    }
}

/// Finds the first function of a contract's interface that has the entry's name.
pub fn find_entrypoint<'a>(
    computed_val_fn: &ComputedValueEntrypoint,
    abi: &'a abi::Contract,
) -> (r: Option<&'a abi::Function>)
    ensures
        match r {
            Some(function) => find_function(abi.items@, computed_val_fn.entrypoint@) == Some(
                *function,
            ),
            None => find_function(abi.items@, computed_val_fn.entrypoint@) is None,
        },
        match r {
            Some(function) => exists|i: int|
                {
                    &&& 0 <= i < abi.items@.len()
                    &&& #[trigger] abi.items@[i] == abi::Item::Function(*function)
                    &&& function.name@ == computed_val_fn.entrypoint@
                    &&& forall|j: int|
                        0 <= j < i ==> !(#[trigger] abi.items@[j] matches abi::Item::Function(g)
                            && g.name@ == computed_val_fn.entrypoint@)
                },
            None => forall|j: int|
                0 <= j < abi.items@.len() ==> !(
                #[trigger] abi.items@[j] matches abi::Item::Function(g) && g.name@
                    == computed_val_fn.entrypoint@),
        },
{
    proof {
        law_found_function_is_the_first_of_the_name(abi.items@, computed_val_fn.entrypoint@);
    }
    let items = &abi.items;
    let ghost name = computed_val_fn.entrypoint@;
    let mut i: usize = 0;
    assert(items@.skip(0) =~= items@);
    while i < items.len()
        invariant
            i <= items.len(),
            *items == abi.items,
            name == computed_val_fn.entrypoint@,
            find_function(items@, name) == find_function(items@.skip(i as int), name),
        decreases items.len() - i,
    {
        assert(items@.skip(i as int)[0] == items@[i as int]);
        assert(items@.skip(i as int).drop_first() =~= items@.skip(i + 1));
        if let abi::Item::Function(function) = &items[i] {
            if function.name == computed_val_fn.entrypoint {
                proof {
                    law_found_function_is_the_first_of_the_name(abi.items@, name);
                }
                return Some(function);
            }
        }
        i += 1;
    }
    None
}

/// Finds the type that a function's interface says it returns, or says why there is none.
pub fn resolve_return_type(
    computed_val_fn: &ComputedValueEntrypoint,
    abi: &Option<abi::Contract>,
) -> (r: Result<Ty, ComputedValueError>)
    ensures
        match r {
            Ok(ty) => return_type(computed_val_fn.entrypoint@, *abi) == Ok::<_, ComputedValueError>(
                ty@,
            ),
            Err(error) => return_type(computed_val_fn.entrypoint@, *abi) == Err::<TyView, _>(
                error,
            ),
        },
{
    match abi {
        Some(contract) => match find_entrypoint(computed_val_fn, contract) {
            Some(function) => {
                if function.outputs.len() == 0 {
                    return Err(ComputedValueError::NoOutput);
                }
                match primitive_from_path(&function.outputs[0].ty) {
                    Some(p) => Ok(Ty::Primitive(p)),
                    None => Err(ComputedValueError::UnsupportedType),
                }
            },
            None => Err(ComputedValueError::UnknownEntrypoint),
        },
        None => {
            let items: Vec<Ty> = Vec::new();
            assert(items@ =~= Seq::empty());
            Ok(Ty::Tuple(items))
        },
    }
}

/// The type that a function returns, as the contract's interface says. A contract whose interface
/// is not known returns the empty tuple.
pub fn function_return_type_from_abi(
    computed_val_fn: &ComputedValueEntrypoint,
    abi: &Option<abi::Contract>,
) -> (r: Ty)
    requires
        return_type(computed_val_fn.entrypoint@, *abi) is Ok,
    ensures
        return_type(computed_val_fn.entrypoint@, *abi) == Ok::<_, ComputedValueError>(r@),
        abi is None ==> (r matches Ty::Tuple(items) && items@.len() == 0),
        forall|i: int|
            {
                &&& abi is Some
                &&& 0 <= i < abi->0.items@.len()
                &&& #[trigger] abi->0.items@[i] is Function
                &&& abi->0.items@[i]->Function_0.name@ == computed_val_fn.entrypoint@
                &&& forall|j: int|
                    0 <= j < i ==> !(#[trigger] abi->0.items@[j] is Function
                        && abi->0.items@[j]->Function_0.name@ == computed_val_fn.entrypoint@)
            } ==> (r matches Ty::Primitive(p) && primitive(
                abi->0.items@[i]->Function_0.outputs@[0].ty@,
            ) == Some(p)),
{
    proof {
        if abi is Some {
            let items = abi->0.items@;
            let name = computed_val_fn.entrypoint@;
            assert forall|i: int|
                {
                    &&& 0 <= i < items.len()
                    &&& #[trigger] items[i] is Function
                    &&& items[i]->Function_0.name@ == name
                    &&& forall|j: int|
                        0 <= j < i ==> !(#[trigger] items[j] is Function
                            && items[j]->Function_0.name@ == name)
                } implies find_function(items, name) == Some(items[i]->Function_0) by {
                lemma_first_of_the_name(items, name, i);
            }
        }
    }
    resolve_return_type(computed_val_fn, abi).unwrap()
}

/// Why no call can be made of an entry of a contract; none where one can be made.
pub open spec fn defect(contract: Contract, entry: ComputedValueEntrypoint) -> Option<
    ComputedValueError,
> {
    match return_type(entry.entrypoint@, contract.abi) {
        Err(error) => Some(error),
        Ok(_) => if contract.address is None {
            Some(ComputedValueError::NoAddress)
        } else if !is_ascii_chars(entry.entrypoint@) {
            Some(ComputedValueError::NonAsciiEntrypoint)
        } else {
            None
        },
    }
}

/// The call that an entry of a contract stands for.
pub open spec fn call(contract: Contract, entry: ComputedValueEntrypoint) -> Call
    recommends
        defect(contract, entry) is None,
{
    Call {
        contract_address: contract.address->0@,
        entry_point_selector: selector(entry.entrypoint@),
        return_type: return_type(entry.entrypoint@, contract.abi)->Ok_0,
    }
}

/// The calls that entries of a contract stand for, in order, each with the model that it belongs
/// to. An entry without a model stands for none.
pub open spec fn contract_calls(
    contract: Contract,
    computed: Seq<ComputedValueEntrypoint>,
) -> Seq<(Seq<char>, Call)>
    decreases computed.len(),
{
    if computed.len() == 0 {
        Seq::empty()
    } else {
        let before = contract_calls(contract, computed.drop_last());
        match computed.last().model {
            Some(model) => before.push((model@, call(contract, computed.last()))),
            None => before,
        }
    }
}

/// The calls that the contracts' entries stand for, in order.
pub open spec fn all_calls(contracts: Seq<Contract>) -> Seq<(Seq<char>, Call)>
    decreases contracts.len(),
{
    if contracts.len() == 0 {
        Seq::empty()
    } else {
        all_calls(contracts.drop_last()) + contract_calls(
            contracts.last(),
            contracts.last().computed@,
        )
    }
}

/// The calls of one model among the given ones, in order.
pub open spec fn calls_for(calls: Seq<(Seq<char>, Call)>, model: Seq<char>) -> Seq<Call>
    decreases calls.len(),
{
    if calls.len() == 0 {
        Seq::empty()
    } else if calls.last().0 == model {
        calls_for(calls.drop_last(), model).push(calls.last().1)
    } else {
        calls_for(calls.drop_last(), model)
    }
}

/// The calls by model: each model that has one, with all of its calls in order.
pub open spec fn by_model(calls: Seq<(Seq<char>, Call)>) -> Map<Seq<char>, Seq<Call>> {
    Map::new(
        |model: Seq<char>| calls_for(calls, model).len() > 0,
        |model: Seq<char>| calls_for(calls, model),
    )
}

/// Whether a call can be made of each entry of the contract that has a model.
pub open spec fn contract_is_sound(contract: Contract) -> bool {
    forall|j: int|
        0 <= j < contract.computed@.len() && (#[trigger] contract.computed@[j]).model is Some
            ==> defect(contract, contract.computed@[j]) is None
}

/// Whether a call can be made of each entry of the manifest that has a model.
pub open spec fn is_sound(manifest: Manifest) -> bool {
    forall|i: int|
        0 <= i < manifest.contracts@.len() ==> contract_is_sound(#[trigger] manifest.contracts@[i])
}

/// One call more, behind the others, is one call more for its model and changes nothing for the
/// other models.
pub proof fn law_calls_are_kept_by_model(
    calls: Seq<(Seq<char>, Call)>,
    model: Seq<char>,
    call: Call,
)
    ensures
        by_model(calls.push((model, call))) == by_model(calls).insert(
            model,
            calls_for(calls, model).push(call),
        ),
{
    let more = calls.push((model, call));
    assert(more.drop_last() =~= calls);
    assert(by_model(more) =~= by_model(calls).insert(model, calls_for(calls, model).push(call)));
}

/// Makes the call that an entry of a contract stands for, given the selector of its function.
pub fn computed_value_call(
    contract: &Contract,
    computed_val_fn: &ComputedValueEntrypoint,
    entry_point_selector: FieldElement,
) -> (r: ComputedValueCall)
    requires
        contract.address is Some,
        return_type(computed_val_fn.entrypoint@, contract.abi) is Ok,
    ensures
        r@.contract_address == contract.address->0@,
        r@.entry_point_selector == entry_point_selector@,
        r.contract_address == contract.address->0,
        r.entry_point_selector == entry_point_selector,
        Ok::<_, ComputedValueError>(r.return_type@) == return_type(
            computed_val_fn.entrypoint@,
            contract.abi,
        ),
        Ok::<_, ComputedValueError>(r@.return_type) == return_type(
            computed_val_fn.entrypoint@,
            contract.abi,
        ),
{
    let return_type = function_return_type_from_abi(computed_val_fn, &contract.abi);
    let contract_address = contract.address.unwrap();
    ComputedValueCall { contract_address, entry_point_selector, return_type }
}

/// The calls of computed values that the manifest of a world asks for, by the model that they
/// belong to. Without a manifest there are none.
pub fn computed_value_entrypoints(manifest: &Option<Manifest>) -> (r: ComputedValues)
    requires
        *manifest matches Some(m) ==> is_sound(m),
    ensures
        r.wf(),
        r@ == match *manifest {
            Some(m) => by_model(all_calls(m.contracts@)),
            None => Map::empty(),
        },
        *manifest matches Some(m) ==> forall|i: int, j: int|
            {
                &&& 0 <= i < m.contracts@.len()
                &&& 0 <= j < m.contracts@[i].computed@.len()
                &&& (#[trigger] m.contracts@[i].computed@[j]).model is Some
            } ==> {
                let contract = m.contracts@[i];
                let entry = contract.computed@[j];
                &&& r@.contains_key(entry.model->0@)
                &&& exists|k: int|
                    {
                        &&& 0 <= k < r@[entry.model->0@].len()
                        &&& (#[trigger] r@[entry.model->0@][k]).entry_point_selector == selector(
                            entry.entrypoint@,
                        )
                        &&& r@[entry.model->0@][k].contract_address == contract.address->0.bytes@
                        &&& return_type(entry.entrypoint@, contract.abi) == Ok::<
                            _,
                            ComputedValueError,
                        >(r@[entry.model->0@][k].return_type)
                    }
            },
        *manifest matches Some(m) ==> forall|model: Seq<char>, k: int|
            #![trigger r@[model][k]]
            r@.contains_key(model) && 0 <= k < r@[model].len() ==> exists|i: int, j: int|
                {
                    &&& 0 <= i < m.contracts@.len()
                    &&& 0 <= j < m.contracts@[i].computed@.len()
                    &&& (#[trigger] m.contracts@[i].computed@[j]).model is Some
                    &&& m.contracts@[i].computed@[j].model->0@ == model
                    &&& r@[model][k].entry_point_selector == selector(
                        m.contracts@[i].computed@[j].entrypoint@,
                    )
                    &&& r@[model][k].contract_address == m.contracts@[i].address->0.bytes@
                    &&& return_type(
                        m.contracts@[i].computed@[j].entrypoint@,
                        m.contracts@[i].abi,
                    ) == Ok::<_, ComputedValueError>(r@[model][k].return_type)
                },
{
    let mut computed_values = ComputedValues::new();
    let contracts = match manifest {
        Some(manifest) => &manifest.contracts,
        None => return computed_values,
    };
    let mut i: usize = 0;
    proof {
        assert(contracts@.take(0) =~= Seq::empty());
        assert(by_model(Seq::empty()) =~= Map::empty());
    }
    while i < contracts.len()
        invariant
            i <= contracts.len(),
            forall|k: int|
                0 <= k < contracts@.len() ==> contract_is_sound(#[trigger] contracts@[k]),
            computed_values.wf(),
            computed_values@ == by_model(all_calls(contracts@.take(i as int))),
        decreases contracts.len() - i,
    {
        let contract = &contracts[i];
        let computed = &contract.computed;
        let ghost before = all_calls(contracts@.take(i as int));
        let mut j: usize = 0;
        proof {
            assert(computed@.take(0) =~= Seq::empty());
            assert(before + contract_calls(*contract, computed@.take(0)) =~= before);
        }
        while j < computed.len()
            invariant
                j <= computed.len(),
                *computed == contract.computed,
                contract_is_sound(*contract),
                computed_values.wf(),
                computed_values@ == by_model(
                    before + contract_calls(*contract, computed@.take(j as int)),
                ),
            decreases computed.len() - j,
        {
            let computed_val_fn = &computed[j];
            let ghost so_far = before + contract_calls(*contract, computed@.take(j as int));
            assert(computed@.take(j + 1).drop_last() =~= computed@.take(j as int));
            if let Some(model_name) = &computed_val_fn.model {
                assert(defect(*contract, computed@[j as int]) is None);
                let selector = get_selector_from_name(
                    computed_val_fn.entrypoint.as_str(),
                ).unwrap();
                let contract_entrypoint = computed_value_call(contract, computed_val_fn, selector);
                proof {
                    let c = contract_entrypoint@;
                    assert(c == call(*contract, *computed_val_fn));
                    law_calls_are_kept_by_model(so_far, model_name@, c);
                    assert(before + contract_calls(*contract, computed@.take(j + 1))
                        =~= so_far.push((model_name@, c)));
                    if !by_model(so_far).contains_key(model_name@) {
                        assert(calls_for(so_far, model_name@) =~= Seq::empty());
                    }
                }
                computed_values.record(model_name.clone(), contract_entrypoint);
            }
            j += 1;
        }
        proof {
            assert(computed@.take(j as int) =~= computed@);
            assert(contracts@.take(i + 1).drop_last() =~= contracts@.take(i as int));
        }
        i += 1;
    }
    proof {
        assert(contracts@.take(i as int) =~= contracts@);
        lemma_entries_and_calls_agree(contracts@);
    }
    computed_values
}

/// Entries and listed calls agree: each entry with a model has its call, and each call its entry.
proof fn lemma_entries_and_calls_agree(contracts: Seq<Contract>)
    requires
        forall|i: int| 0 <= i < contracts.len() ==> contract_is_sound(#[trigger] contracts[i]),
    ensures
        forall|i: int, j: int|
            {
                &&& 0 <= i < contracts.len()
                &&& 0 <= j < contracts[i].computed@.len()
                &&& (#[trigger] contracts[i].computed@[j]).model is Some
            } ==> {
                let contract = contracts[i];
                let entry = contract.computed@[j];
                let map = by_model(all_calls(contracts));
                &&& map.contains_key(entry.model->0@)
                &&& exists|k: int|
                    {
                        &&& 0 <= k < map[entry.model->0@].len()
                        &&& (#[trigger] map[entry.model->0@][k]).entry_point_selector == selector(
                            entry.entrypoint@,
                        )
                        &&& map[entry.model->0@][k].contract_address == contract.address->0.bytes@
                        &&& return_type(entry.entrypoint@, contract.abi) == Ok::<
                            _,
                            ComputedValueError,
                        >(map[entry.model->0@][k].return_type)
                    }
            },
        forall|model: Seq<char>, k: int|
            #![trigger by_model(all_calls(contracts))[model][k]]
            by_model(all_calls(contracts)).contains_key(model) && 0 <= k < by_model(
                all_calls(contracts),
            )[model].len() ==> exists|i: int, j: int|
                {
                    &&& 0 <= i < contracts.len()
                    &&& 0 <= j < contracts[i].computed@.len()
                    &&& (#[trigger] contracts[i].computed@[j]).model is Some
                    &&& contracts[i].computed@[j].model->0@ == model
                    &&& by_model(all_calls(contracts))[model][k].entry_point_selector == selector(
                        contracts[i].computed@[j].entrypoint@,
                    )
                    &&& by_model(all_calls(contracts))[model][k].contract_address
                        == contracts[i].address->0.bytes@
                    &&& return_type(contracts[i].computed@[j].entrypoint@, contracts[i].abi)
                        == Ok::<_, ComputedValueError>(
                        by_model(all_calls(contracts))[model][k].return_type,
                    )
                },
{
    let map = by_model(all_calls(contracts));
    assert forall|i: int, j: int|
        {
            &&& 0 <= i < contracts.len()
            &&& 0 <= j < contracts[i].computed@.len()
            &&& (#[trigger] contracts[i].computed@[j]).model is Some
        } implies {
        let contract = contracts[i];
        let entry = contract.computed@[j];
        &&& map.contains_key(entry.model->0@)
        &&& exists|k: int|
            {
                &&& 0 <= k < map[entry.model->0@].len()
                &&& (#[trigger] map[entry.model->0@][k]).entry_point_selector == selector(
                    entry.entrypoint@,
                )
                &&& map[entry.model->0@][k].contract_address == contract.address->0.bytes@
                &&& return_type(entry.entrypoint@, contract.abi) == Ok::<
                    _,
                    ComputedValueError,
                >(map[entry.model->0@][k].return_type)
            }
    } by {
        assert(contract_is_sound(contracts[i]));
        law_entries_are_listed_under_their_model(contracts, i, j);
    }
    assert forall|model: Seq<char>, k: int|
        #![trigger map[model][k]]
        map.contains_key(model) && 0 <= k < map[model].len() implies exists|i: int, j: int|
        {
            &&& 0 <= i < contracts.len()
            &&& 0 <= j < contracts[i].computed@.len()
            &&& (#[trigger] contracts[i].computed@[j]).model is Some
            &&& contracts[i].computed@[j].model->0@ == model
            &&& map[model][k].entry_point_selector == selector(
                contracts[i].computed@[j].entrypoint@,
            )
            &&& map[model][k].contract_address == contracts[i].address->0.bytes@
            &&& return_type(contracts[i].computed@[j].entrypoint@, contracts[i].abi) == Ok::<
                _,
                ComputedValueError,
            >(map[model][k].return_type)
        } by {
        law_listed_calls_come_from_entries(contracts, model, k);
    }
}

/// An entry of a manifest that no call can be made of.
#[derive(Clone, Copy, Debug, PartialEq, Eq, Structural)]
pub struct Defect {
    /// Which contract of the manifest the entry is in.
    pub contract: usize,
    /// Which entry of the contract it is.
    pub entry: usize,
    /// What is wrong with it.
    pub error: ComputedValueError,
}

/// Whether no entry with a model, among the first ones of the contract, has a defect.
pub open spec fn sound_up_to(contract: Contract, n: int) -> bool {
    forall|j: int|
        0 <= j < n && (#[trigger] contract.computed@[j]).model is Some ==> defect(
            contract,
            contract.computed@[j],
        ) is None
}

/// Whether this is the first entry of the manifest that no call can be made of.
pub open spec fn is_first_defect(manifest: Manifest, d: Defect) -> bool {
    let contracts = manifest.contracts@;
    let contract = contracts[d.contract as int];
    &&& d.contract < contracts.len()
    &&& d.entry < contract.computed@.len()
    &&& contract.computed@[d.entry as int].model is Some
    &&& defect(contract, contract.computed@[d.entry as int]) == Some(d.error)
    &&& sound_up_to(contract, d.entry as int)
    &&& forall|i: int| 0 <= i < d.contract ==> contract_is_sound(#[trigger] contracts[i])
}

/// Says what is wrong with an entry of a contract.
fn find_defect(contract: &Contract, computed_val_fn: &ComputedValueEntrypoint) -> (r: Option<
    ComputedValueError,
>)
    ensures
        r == defect(*contract, *computed_val_fn),
{
    match resolve_return_type(computed_val_fn, &contract.abi) {
        Err(error) => Some(error),
        Ok(_) => if contract.address.is_none() {
            Some(ComputedValueError::NoAddress)
        } else if !computed_val_fn.entrypoint.as_str().is_ascii() {
            Some(ComputedValueError::NonAsciiEntrypoint)
        } else {
            None
        },
    }
}

/// Finds the first entry of the manifest that no call can be made of.
pub fn check_manifest(manifest: &Manifest) -> (r: Result<(), Defect>)
    ensures
        r is Ok <==> is_sound(*manifest),
        r matches Err(d) ==> is_first_defect(*manifest, d),
        r matches Err(d) ==> {
            let contracts = manifest.contracts@;
            &&& d.contract < contracts.len()
            &&& d.entry < contracts[d.contract as int].computed@.len()
            &&& contracts[d.contract as int].computed@[d.entry as int].model is Some
            &&& defect(
                contracts[d.contract as int],
                contracts[d.contract as int].computed@[d.entry as int],
            ) == Some(d.error)
            &&& forall|i: int, j: int|
                {
                    &&& 0 <= i < contracts.len()
                    &&& 0 <= j < contracts[i].computed@.len()
                    &&& i < d.contract || (i == d.contract && j < d.entry)
                    &&& (#[trigger] contracts[i].computed@[j]).model is Some
                } ==> defect(contracts[i], contracts[i].computed@[j]) is None
        },
        r is Ok ==> forall|i: int, j: int|
            {
                &&& 0 <= i < manifest.contracts@.len()
                &&& 0 <= j < manifest.contracts@[i].computed@.len()
                &&& (#[trigger] manifest.contracts@[i].computed@[j]).model is Some
            } ==> defect(manifest.contracts@[i], manifest.contracts@[i].computed@[j]) is None,
{
    let contracts = &manifest.contracts;
    let mut i: usize = 0;
    while i < contracts.len()
        invariant
            i <= contracts.len(),
            *contracts == manifest.contracts,
            forall|k: int| 0 <= k < i ==> contract_is_sound(#[trigger] contracts@[k]),
        decreases contracts.len() - i,
    {
        let contract = &contracts[i];
        let computed = &contract.computed;
        let mut j: usize = 0;
        while j < computed.len()
            invariant
                j <= computed.len(),
                i < contracts.len(),
                *contracts == manifest.contracts,
                *contract == contracts@[i as int],
                *computed == contract.computed,
                forall|k: int| 0 <= k < i ==> contract_is_sound(#[trigger] contracts@[k]),
                sound_up_to(*contract, j as int),
            decreases computed.len() - j,
        {
            if computed[j].model.is_some() {
                if let Some(error) = find_defect(contract, &computed[j]) {
                    assert(!contract_is_sound(contracts@[i as int]));
                    return Err(Defect { contract: i, entry: j, error });
                }
            }
            j += 1;
        }
        assert(contract_is_sound(contracts@[i as int]));
        i += 1;
    }
    Ok(())
}

/// The field element zero has 32 bytes, and all of them are zero.
pub proof fn law_zero_is_all_zeros()
    ensures
        zero().len() == 32,
        forall|i: int| 0 <= i < 32 ==> #[trigger] zero()[i] == 0,
{
}

/// Each primitive type goes by one path alone, and no other path names one.
pub proof fn law_primitives_have_their_paths(path: Seq<char>)
    ensures
        primitive(path) == Some(Primitive::U8(None)) <==> path == "core::integer::u8"@,
        primitive(path) == Some(Primitive::U16(None)) <==> path == "core::integer::u16"@,
        primitive(path) == Some(Primitive::U32(None)) <==> path == "core::integer::u32"@,
        primitive(path) == Some(Primitive::U64(None)) <==> path == "core::integer::u64"@,
        primitive(path) == Some(Primitive::U128(None)) <==> path == "core::integer::u128"@,
        primitive(path) == Some(Primitive::U256(None)) <==> path == "core::integer::u256"@,
        primitive(path) == Some(Primitive::Bool(None)) <==> path == "core::bool"@,
        primitive(path) == Some(Primitive::Felt252(None)) <==> path == "core::felt252"@,
        primitive(path) == Some(Primitive::ClassHash(None)) <==> path
            == "core::starknet::class_hash::ClassHash"@,
        primitive(path) == Some(Primitive::ContractAddress(None)) <==> path
            == "core::starknet::contract_address::ContractAddress"@,
        primitive(path) is Some ==> {
            ||| path == "core::integer::u8"@
            ||| path == "core::integer::u16"@
            ||| path == "core::integer::u32"@
            ||| path == "core::integer::u64"@
            ||| path == "core::integer::u128"@
            ||| path == "core::integer::u256"@
            ||| path == "core::bool"@
            ||| path == "core::felt252"@
            ||| path == "core::starknet::class_hash::ClassHash"@
            ||| path == "core::starknet::contract_address::ContractAddress"@
        },
{
    reveal_strlit("core::integer::u8");
    reveal_strlit("core::integer::u16");
    reveal_strlit("core::integer::u32");
    reveal_strlit("core::integer::u64");
    reveal_strlit("core::integer::u128");
    reveal_strlit("core::integer::u256");
    reveal_strlit("core::bool");
    reveal_strlit("core::felt252");
    reveal_strlit("core::starknet::class_hash::ClassHash");
    reveal_strlit("core::starknet::contract_address::ContractAddress");
    assert("core::integer::u8"@.len() == 17);
    assert("core::integer::u16"@.len() == 18);
    assert("core::integer::u32"@.len() == 18);
    assert("core::integer::u64"@.len() == 18);
    assert("core::integer::u128"@.len() == 19);
    assert("core::integer::u256"@.len() == 19);
    assert("core::bool"@.len() == 10);
    assert("core::felt252"@.len() == 13);
    assert("core::starknet::class_hash::ClassHash"@.len() == 37);
    assert("core::starknet::contract_address::ContractAddress"@.len() == 49);
    assert("core::integer::u16"@[16] == '1');
    assert("core::integer::u32"@[16] == '3');
    assert("core::integer::u64"@[16] == '6');
    assert("core::integer::u128"@[16] == '1');
    assert("core::integer::u256"@[16] == '2');
}

/// The function that is found for a name bears that name, and none before it does; none is found
/// only where no function bears it.
pub proof fn law_found_function_is_the_first_of_the_name(items: Seq<abi::Item>, name: Seq<char>)
    ensures
        match find_function(items, name) {
            Some(function) => exists|i: int|
                {
                    &&& 0 <= i < items.len()
                    &&& #[trigger] items[i] == abi::Item::Function(function)
                    &&& function.name@ == name
                    &&& forall|j: int|
                        0 <= j < i ==> !(#[trigger] items[j] matches abi::Item::Function(g)
                            && g.name@ == name)
                },
            None => forall|j: int|
                0 <= j < items.len() ==> !(#[trigger] items[j] matches abi::Item::Function(g)
                    && g.name@ == name),
        },
    decreases items.len(),
{
    if items.len() > 0 {
        let rest = items.drop_first();
        law_found_function_is_the_first_of_the_name(rest, name);
        assert(forall|j: int| 0 <= j < rest.len() ==> #[trigger] rest[j] == items[j + 1]);
        let here = items[0] matches abi::Item::Function(g) && g.name@ == name;
        if here {
            assert(items[0] == abi::Item::Function(find_function(items, name)->0));
        } else {
            match find_function(rest, name) {
                Some(function) => {
                    let i = choose|i: int|
                        {
                            &&& 0 <= i < rest.len()
                            &&& #[trigger] rest[i] == abi::Item::Function(function)
                            &&& function.name@ == name
                            &&& forall|j: int|
                                0 <= j < i ==> !(#[trigger] rest[j] matches abi::Item::Function(g)
                                    && g.name@ == name)
                        };
                    assert(items[i + 1] == abi::Item::Function(function));
                    assert forall|j: int| 0 <= j < i + 1 implies !(
                    #[trigger] items[j] matches abi::Item::Function(g) && g.name@ == name) by {
                        if j > 0 {
                            assert(items[j] == rest[j - 1]);
                        }
                    }
                },
                None => {
                    assert forall|j: int| 0 <= j < items.len() implies !(
                    #[trigger] items[j] matches abi::Item::Function(g) && g.name@ == name) by {
                        if j > 0 {
                            assert(items[j] == rest[j - 1]);
                        }
                    }
                },
            }
        }
    }
}

/// The first function of a name is the one that is found.
proof fn lemma_first_of_the_name(items: Seq<abi::Item>, name: Seq<char>, i: int)
    requires
        0 <= i < items.len(),
        items[i] is Function,
        items[i]->Function_0.name@ == name,
        forall|j: int|
            0 <= j < i ==> !(#[trigger] items[j] is Function && items[j]->Function_0.name@ == name),
    ensures
        find_function(items, name) == Some(items[i]->Function_0),
{
    law_found_function_is_the_first_of_the_name(items, name);
    let found = find_function(items, name);
    if found is Some {
        let k = choose|k: int|
            {
                &&& 0 <= k < items.len()
                &&& #[trigger] items[k] == abi::Item::Function(found->0)
                &&& found->0.name@ == name
                &&& forall|j: int|
                    0 <= j < k ==> !(#[trigger] items[j] matches abi::Item::Function(g) && g.name@
                        == name)
            };
        if k < i {
            assert(items[k] is Function);
        }
        if i < k {
            assert(items[i] matches abi::Item::Function(g) && g.name@ == name);
        }
    } else {
        assert(items[i] matches abi::Item::Function(g) && g.name@ == name);
    }
}

/// The return type is that of the first output of the first function of the name. It is missing
/// where no function has the name, where that function has no output, or where the output's type
/// is no primitive one. Where the interface is not known it is the empty tuple.
pub proof fn law_return_type_is_the_first_output(
    name: Seq<char>,
    contract: abi::Contract,
    i: int,
)
    requires
        0 <= i < contract.items@.len(),
        contract.items@[i] is Function,
        contract.items@[i]->Function_0.name@ == name,
        forall|j: int|
            0 <= j < i ==> !(#[trigger] contract.items@[j] is Function
                && contract.items@[j]->Function_0.name@ == name),
    ensures
        ({
            let outputs = contract.items@[i]->Function_0.outputs@;
            let r = return_type(name, Some(contract));
            &&& outputs.len() == 0 ==> r == Err::<TyView, _>(ComputedValueError::NoOutput)
            &&& outputs.len() > 0 && primitive(outputs[0].ty@) is Some ==> r == Ok::<
                _,
                ComputedValueError,
            >(TyView::Primitive(primitive(outputs[0].ty@)->0))
            &&& outputs.len() > 0 && primitive(outputs[0].ty@) is None ==> r == Err::<TyView, _>(
                ComputedValueError::UnsupportedType,
            )
        }),
{
    lemma_first_of_the_name(contract.items@, name, i);
}

/// Where no function has the name there is no return type, and where the interface is not known
/// it is the empty tuple.
pub proof fn law_return_type_of_unknown_functions(name: Seq<char>, contract: abi::Contract)
    ensures
        return_type(name, None) == Ok::<_, ComputedValueError>(TyView::Tuple(Seq::empty())),
        (forall|j: int|
            0 <= j < contract.items@.len() ==> !(#[trigger] contract.items@[j] is Function
                && contract.items@[j]->Function_0.name@ == name)) ==> return_type(
            name,
            Some(contract),
        ) == Err::<TyView, _>(ComputedValueError::UnknownEntrypoint),
{
    law_found_function_is_the_first_of_the_name(contract.items@, name);
    if forall|j: int|
        0 <= j < contract.items@.len() ==> !(#[trigger] contract.items@[j] is Function
            && contract.items@[j]->Function_0.name@ == name) {
        if find_function(contract.items@, name) is Some {
            let f = find_function(contract.items@, name)->0;
            let k = choose|k: int|
                0 <= k < contract.items@.len() && #[trigger] contract.items@[k]
                    == abi::Item::Function(f) && f.name@ == name;
            assert(contract.items@[k] is Function);
        }
    }
}

/// A call can be made of an entry where its return type is known, its contract has an address and
/// its name is ASCII; otherwise the first of these that is missing is the defect.
pub proof fn law_defects_are_what_is_missing(contract: Contract, entry: ComputedValueEntrypoint)
    ensures
        ({
            let ty = return_type(entry.entrypoint@, contract.abi);
            let d = defect(contract, entry);
            &&& ty is Err ==> d == Some(ty->Err_0)
            &&& ty is Ok && contract.address is None ==> d == Some(ComputedValueError::NoAddress)
            &&& ty is Ok && contract.address is Some && !is_ascii_chars(entry.entrypoint@) ==> d
                == Some(ComputedValueError::NonAsciiEntrypoint)
            &&& ty is Ok && contract.address is Some && is_ascii_chars(entry.entrypoint@)
                ==> d is None
        }),
{
}

/// A manifest is sound where no entry with a model has a defect.
pub proof fn law_sound_manifests_have_no_defect(manifest: Manifest)
    ensures
        is_sound(manifest) <==> forall|i: int, j: int|
            {
                &&& 0 <= i < manifest.contracts@.len()
                &&& 0 <= j < manifest.contracts@[i].computed@.len()
                &&& (#[trigger] manifest.contracts@[i].computed@[j]).model is Some
            } ==> defect(manifest.contracts@[i], manifest.contracts@[i].computed@[j]) is None,
{
    let contracts = manifest.contracts@;
    if is_sound(manifest) {
        assert forall|i: int, j: int|
            {
                &&& 0 <= i < contracts.len()
                &&& 0 <= j < contracts[i].computed@.len()
                &&& (#[trigger] contracts[i].computed@[j]).model is Some
            } implies defect(contracts[i], contracts[i].computed@[j]) is None by {
            assert(contract_is_sound(contracts[i]));
        }
    }
    if forall|i: int, j: int|
        {
            &&& 0 <= i < contracts.len()
            &&& 0 <= j < contracts[i].computed@.len()
            &&& (#[trigger] contracts[i].computed@[j]).model is Some
        } ==> defect(contracts[i], contracts[i].computed@[j]) is None {
        assert forall|i: int| 0 <= i < contracts.len() implies contract_is_sound(
            #[trigger] contracts[i],
        ) by {
            assert forall|j: int|
                0 <= j < contracts[i].computed@.len() && (
                #[trigger] contracts[i].computed@[j]).model is Some implies defect(
                contracts[i],
                contracts[i].computed@[j],
            ) is None by {}
        }
    }
}

/// The call that an entry stands for goes to the contract's address, with the selector of the
/// entry's whole name, and returns what the interface says of that name.
pub proof fn law_call_selects_the_entrypoint(contract: Contract, entry: ComputedValueEntrypoint)
    ensures
        call(contract, entry).entry_point_selector == selector(entry.entrypoint@),
        call(contract, entry).contract_address == contract.address->0.bytes@,
        return_type(entry.entrypoint@, contract.abi) matches Ok(ty) ==> call(
            contract,
            entry,
        ).return_type == ty,
{
}

/// A contract's calls are those of its entries in order: those of the first entries and then
/// those of the others. An entry with a model gives its own call under that model, and one
/// without a model none.
pub proof fn law_calls_follow_the_entries(
    contract: Contract,
    first: Seq<ComputedValueEntrypoint>,
    second: Seq<ComputedValueEntrypoint>,
    entry: ComputedValueEntrypoint,
)
    ensures
        contract_calls(contract, first + second) == contract_calls(contract, first)
            + contract_calls(contract, second),
        contract_calls(contract, seq![entry]) == (if entry.model is Some {
            seq![(entry.model->0@, call(contract, entry))]
        } else {
            Seq::empty()
        }),
    decreases second.len(),
{
    reveal_with_fuel(contract_calls, 2);
    assert(seq![entry].drop_last() =~= Seq::empty());
    assert(contract_calls(contract, seq![entry]) =~= (if entry.model is Some {
        seq![(entry.model->0@, call(contract, entry))]
    } else {
        Seq::empty()
    }));
    if second.len() == 0 {
        assert(first + second =~= first);
        assert(contract_calls(contract, first) + contract_calls(contract, second)
            =~= contract_calls(contract, first));
    } else {
        law_calls_follow_the_entries(contract, first, second.drop_last(), entry);
        assert((first + second).drop_last() =~= first + second.drop_last());
        assert(contract_calls(contract, first + second) =~= contract_calls(contract, first)
            + contract_calls(contract, second));
    }
}

/// The calls of contracts are those of the first contracts and then those of the others; a single
/// contract has the calls of its entries.
pub proof fn law_all_calls_follow_the_contracts(
    first: Seq<Contract>,
    second: Seq<Contract>,
    contract: Contract,
)
    ensures
        all_calls(first + second) == all_calls(first) + all_calls(second),
        all_calls(seq![contract]) == contract_calls(contract, contract.computed@),
    decreases second.len(),
{
    reveal_with_fuel(all_calls, 2);
    assert(seq![contract].drop_last() =~= Seq::empty());
    assert(all_calls(seq![contract]) =~= contract_calls(contract, contract.computed@));
    if second.len() == 0 {
        assert(first + second =~= first);
        assert(all_calls(first) + all_calls(second) =~= all_calls(first));
    } else {
        law_all_calls_follow_the_contracts(first, second.drop_last(), contract);
        assert((first + second).drop_last() =~= first + second.drop_last());
        assert(all_calls(first + second) =~= all_calls(first) + all_calls(second));
    }
}

/// A model's calls are picked from all calls in order: those from the first calls and then those
/// from the others, and a single call is picked for its own model and for no other.
pub proof fn law_calls_are_picked_in_order(
    first: Seq<(Seq<char>, Call)>,
    second: Seq<(Seq<char>, Call)>,
    single: (Seq<char>, Call),
    model: Seq<char>,
)
    ensures
        calls_for(first + second, model) == calls_for(first, model) + calls_for(second, model),
        calls_for(seq![single], model) == (if single.0 == model {
            seq![single.1]
        } else {
            Seq::empty()
        }),
        by_model(first).contains_key(model) <==> calls_for(first, model).len() > 0,
        by_model(first).contains_key(model) ==> by_model(first)[model] == calls_for(first, model),
{
    lemma_calls_for_concat(first, second, model);
    reveal_with_fuel(calls_for, 2);
    assert(seq![single].drop_last() =~= Seq::empty());
    assert(calls_for(seq![single], model) =~= (if single.0 == model {
        seq![single.1]
    } else {
        Seq::empty()
    }));
}

/// Each entry with a model that a call can be made of is listed under its model, with the
/// contract's address, the selector of the entry's name and its return type.
pub proof fn law_entries_are_listed_under_their_model(contracts: Seq<Contract>, i: int, j: int)
    requires
        0 <= i < contracts.len(),
        0 <= j < contracts[i].computed@.len(),
        contracts[i].computed@[j].model is Some,
        contracts[i].address is Some,
        return_type(contracts[i].computed@[j].entrypoint@, contracts[i].abi) is Ok,
    ensures
        ({
            let entry = contracts[i].computed@[j];
            let model = entry.model->0@;
            let map = by_model(all_calls(contracts));
            &&& map.contains_key(model)
            &&& exists|k: int|
                {
                    &&& 0 <= k < map[model].len()
                    &&& (#[trigger] map[model][k]).entry_point_selector == selector(
                        entry.entrypoint@,
                    )
                    &&& map[model][k].contract_address == contracts[i].address->0.bytes@
                    &&& return_type(entry.entrypoint@, contracts[i].abi) == Ok::<
                        _,
                        ComputedValueError,
                    >(map[model][k].return_type)
                }
        }),
{
    let entry = contracts[i].computed@[j];
    let model = entry.model->0@;
    let c = call(contracts[i], entry);
    law_call_selects_the_entrypoint(contracts[i], entry);
    assert(is_call_of(contracts[i], contracts[i].computed@[j], model, c));
    assert(asks_for(contracts[i], model, c));
    law_calls_are_those_asked_for(contracts, model, c);
    let map = by_model(all_calls(contracts));
    let k = choose|k: int| 0 <= k < map[model].len() && map[model][k] == c;
    assert(map[model][k] == c);
}

/// Each listed call comes from an entry of that model: it goes to that entry's contract, with the
/// selector of that entry's name.
pub proof fn law_listed_calls_come_from_entries(
    contracts: Seq<Contract>,
    model: Seq<char>,
    k: int,
)
    requires
        forall|i: int| 0 <= i < contracts.len() ==> contract_is_sound(#[trigger] contracts[i]),
        by_model(all_calls(contracts)).contains_key(model),
        0 <= k < by_model(all_calls(contracts))[model].len(),
    ensures
        exists|i: int, j: int|
            {
                &&& 0 <= i < contracts.len()
                &&& 0 <= j < contracts[i].computed@.len()
                &&& (#[trigger] contracts[i].computed@[j]).model is Some
                &&& contracts[i].computed@[j].model->0@ == model
                &&& by_model(all_calls(contracts))[model][k].entry_point_selector == selector(
                    contracts[i].computed@[j].entrypoint@,
                )
                &&& by_model(all_calls(contracts))[model][k].contract_address
                    == contracts[i].address->0.bytes@
                &&& return_type(contracts[i].computed@[j].entrypoint@, contracts[i].abi) == Ok::<
                    _,
                    ComputedValueError,
                >(by_model(all_calls(contracts))[model][k].return_type)
            },
{
    let map = by_model(all_calls(contracts));
    let c = map[model][k];
    assert(map[model].contains(c));
    law_calls_are_those_asked_for(contracts, model, c);
    let i = choose|i: int| 0 <= i < contracts.len() && asks_for(#[trigger] contracts[i], model, c);
    let j = choose|j: int|
        0 <= j < contracts[i].computed@.len() && is_call_of(
            contracts[i],
            #[trigger] contracts[i].computed@[j],
            model,
            c,
        );
    assert(contract_is_sound(contracts[i]));
    law_call_selects_the_entrypoint(contracts[i], contracts[i].computed@[j]);
    assert(contracts[i].computed@[j].model is Some);
}

/// The first function of a name decides, whatever stands behind it in the interface.
pub proof fn law_first_function_decides(
    first: Seq<abi::Item>,
    second: Seq<abi::Item>,
    name: Seq<char>,
)
    ensures
        find_function(first + second, name) == match find_function(first, name) {
            Some(function) => Some(function),
            None => find_function(second, name),
        },
    decreases first.len(),
{
    if first.len() == 0 {
        assert(first + second =~= second);
    } else {
        law_first_function_decides(first.drop_first(), second, name);
        assert((first + second).drop_first() =~= first.drop_first() + second);
    }
}

/// Different types of Cairo are different primitive types, and none comes with a value.
pub proof fn law_primitives_tell_types_apart(path1: Seq<char>, path2: Seq<char>)
    requires
        primitive(path1) is Some,
        primitive(path1) == primitive(path2),
    ensures
        path1 == path2,
        match primitive(path1)->0 {
            Primitive::U8(value) => value is None,
            Primitive::U16(value) => value is None,
            Primitive::U32(value) => value is None,
            Primitive::U64(value) => value is None,
            Primitive::U128(value) => value is None,
            Primitive::U256(value) => value is None,
            Primitive::Bool(value) => value is None,
            Primitive::Felt252(value) => value is None,
            Primitive::ClassHash(value) => value is None,
            Primitive::ContractAddress(value) => value is None,
        },
{
}

/// A computed value is of a primitive type where the contract's interface is known, and the empty
/// tuple where it is not.
pub proof fn law_return_types_are_primitive(name: Seq<char>, abi: Option<abi::Contract>)
    requires
        return_type(name, abi) is Ok,
    ensures
        match return_type(name, abi)->Ok_0 {
            TyView::Primitive(_) => abi is Some,
            TyView::Tuple(items) => abi is None && items.len() == 0,
        },
{
}

/// The calls of a model are those of the first lot and then those of the second.
proof fn lemma_calls_for_concat(
    first: Seq<(Seq<char>, Call)>,
    second: Seq<(Seq<char>, Call)>,
    model: Seq<char>,
)
    ensures
        calls_for(first + second, model) == calls_for(first, model) + calls_for(second, model),
    decreases second.len(),
{
    if second.len() == 0 {
        assert(first + second =~= first);
        assert(calls_for(first, model) + calls_for(second, model) =~= calls_for(first, model));
    } else {
        lemma_calls_for_concat(first, second.drop_last(), model);
        assert((first + second).drop_last() =~= first + second.drop_last());
        assert(calls_for(first + second, model) =~= calls_for(first, model) + calls_for(
            second,
            model,
        ));
    }
}

/// The calls of a model stand in the order of the contracts: those of the first contracts and
/// then those of the others.
pub proof fn law_calls_follow_the_contracts(
    first: Seq<Contract>,
    second: Seq<Contract>,
    model: Seq<char>,
)
    ensures
        calls_for(all_calls(first + second), model) == calls_for(all_calls(first), model)
            + calls_for(all_calls(second), model),
    decreases second.len(),
{
    if second.len() == 0 {
        assert(first + second =~= first);
        assert(calls_for(all_calls(first), model) + Seq::empty() =~= calls_for(
            all_calls(first),
            model,
        ));
    } else {
        law_calls_follow_the_contracts(first, second.drop_last(), model);
        assert((first + second).drop_last() =~= first + second.drop_last());
        let last = contract_calls(second.last(), second.last().computed@);
        lemma_calls_for_concat(all_calls(first + second.drop_last()), last, model);
        lemma_calls_for_concat(all_calls(second.drop_last()), last, model);
        assert(calls_for(all_calls(first + second), model) =~= calls_for(all_calls(first), model)
            + calls_for(all_calls(second), model));
    }
}

/// A call of a model is one of the calls, under that model, and the other way round.
proof fn lemma_calls_for_contains(
    calls: Seq<(Seq<char>, Call)>,
    model: Seq<char>,
    call: Call,
)
    ensures
        calls_for(calls, model).contains(call) <==> calls.contains((model, call)),
    decreases calls.len(),
{
    if calls.len() > 0 {
        let front = calls.drop_last();
        lemma_calls_for_contains(front, model, call);
        let listed = calls_for(front, model);
        assert(calls =~= front.push(calls.last()));
        assert(front.push(calls.last()).contains((model, call)) <==> front.contains((model, call))
            || calls.last() == (model, call)) by {
            lemma_push_contains(front, calls.last(), (model, call));
        }
        if calls.last().0 == model {
            lemma_push_contains(listed, calls.last().1, call);
        }
    }
}

/// A sequence with one element more holds what it held and that element.
proof fn lemma_push_contains<A>(s: Seq<A>, last: A, x: A)
    ensures
        s.push(last).contains(x) <==> s.contains(x) || last == x,
{
    if s.contains(x) {
        let i = choose|i: int| 0 <= i < s.len() && s[i] == x;
        assert(s.push(last)[i] == x);
    }
    assert(s.push(last)[s.len() as int] == last);
}

/// Whether the entry belongs to the model and stands for the call.
pub open spec fn is_call_of(
    contract: Contract,
    entry: ComputedValueEntrypoint,
    model: Seq<char>,
    c: Call,
) -> bool {
    entry.model matches Some(m) && m@ == model && call(contract, entry) == c
}

/// Whether some entry of the contract belongs to the model and stands for the call.
pub open spec fn asks_for(contract: Contract, model: Seq<char>, c: Call) -> bool {
    exists|j: int|
        0 <= j < contract.computed@.len() && is_call_of(
            contract,
            #[trigger] contract.computed@[j],
            model,
            c,
        )
}

/// The calls of a contract are those of its entries that have a model.
proof fn lemma_contract_calls_contains(
    contract: Contract,
    computed: Seq<ComputedValueEntrypoint>,
    model: Seq<char>,
    c: Call,
)
    ensures
        contract_calls(contract, computed).contains((model, c)) <==> exists|j: int|
            0 <= j < computed.len() && is_call_of(
                contract,
                #[trigger] computed[j],
                model,
                c,
            ),
    decreases computed.len(),
{
    if computed.len() > 0 {
        let front = computed.drop_last();
        lemma_contract_calls_contains(contract, front, model, c);
        let before = contract_calls(contract, front);
        if let Some(m) = computed.last().model {
            lemma_push_contains(before, (m@, call(contract, computed.last())), (model, c));
        }
        if before.contains((model, c)) {
            let j = choose|j: int|
                0 <= j < front.len() && is_call_of(contract, #[trigger] front[j], model, c);
            assert(is_call_of(contract, computed[j], model, c));
        }
        if exists|j: int|
            0 <= j < computed.len() && is_call_of(contract, #[trigger] computed[j], model, c) {
            let j = choose|j: int|
                0 <= j < computed.len() && is_call_of(contract, #[trigger] computed[j], model, c);
            if j < front.len() {
                assert(is_call_of(contract, front[j], model, c));
            }
        }
        if is_call_of(contract, computed.last(), model, c) {
            assert(is_call_of(contract, computed[computed.len() - 1], model, c));
        }
    }
}

/// A model has exactly the calls that entries of the contracts with that model stand for.
pub proof fn law_calls_are_those_asked_for(contracts: Seq<Contract>, model: Seq<char>, c: Call)
    ensures
        (by_model(all_calls(contracts)).contains_key(model) && by_model(
            all_calls(contracts),
        )[model].contains(c)) <==> exists|i: int|
            0 <= i < contracts.len() && asks_for(#[trigger] contracts[i], model, c),
{
    lemma_calls_for_contains(all_calls(contracts), model, c);
    lemma_all_calls_contains(contracts, model, c);
}

/// The calls of the contracts are those of their entries that have a model.
proof fn lemma_all_calls_contains(contracts: Seq<Contract>, model: Seq<char>, c: Call)
    ensures
        all_calls(contracts).contains((model, c)) <==> exists|i: int|
            0 <= i < contracts.len() && asks_for(#[trigger] contracts[i], model, c),
    decreases contracts.len(),
{
    if contracts.len() > 0 {
        let front = contracts.drop_last();
        let last = contracts.last();
        let before = all_calls(front);
        let more = contract_calls(last, last.computed@);
        lemma_all_calls_contains(front, model, c);
        lemma_contract_calls_contains(last, last.computed@, model, c);
        let x = (model, c);
        if before.contains(x) {
            let k = choose|k: int| 0 <= k < before.len() && before[k] == x;
            assert((before + more)[k] == x);
            let i = choose|i: int|
                0 <= i < front.len() && asks_for(#[trigger] front[i], model, c);
            assert(asks_for(contracts[i], model, c));
        }
        if more.contains(x) {
            let k = choose|k: int| 0 <= k < more.len() && more[k] == x;
            assert((before + more)[before.len() + k] == x);
            assert(asks_for(contracts[contracts.len() - 1], model, c));
        }
        if (before + more).contains(x) {
            let k = choose|k: int| 0 <= k < (before + more).len() && (before + more)[k] == x;
            if k < before.len() {
                assert(before[k] == x);
            } else {
                assert(more[k - before.len()] == x);
            }
        }
        if exists|i: int| 0 <= i < contracts.len() && asks_for(#[trigger] contracts[i], model, c) {
            let i = choose|i: int|
                0 <= i < contracts.len() && asks_for(#[trigger] contracts[i], model, c);
            if i < front.len() {
                assert(asks_for(front[i], model, c));
            }
        }
    }
}

/// How many of the entries belong to the model.
pub open spec fn entries_of(
    computed: Seq<ComputedValueEntrypoint>,
    model: Seq<char>,
) -> nat
    decreases computed.len(),
{
    if computed.len() == 0 {
        0
    } else {
        entries_of(computed.drop_last(), model) + (if computed.last().model matches Some(m) && m@
            == model {
            1nat
        } else {
            0nat
        })
    }
}

/// How many entries of the contracts belong to the model.
pub open spec fn all_entries_of(contracts: Seq<Contract>, model: Seq<char>) -> nat
    decreases contracts.len(),
{
    if contracts.len() == 0 {
        0
    } else {
        all_entries_of(contracts.drop_last(), model) + entries_of(
            contracts.last().computed@,
            model,
        )
    }
}

/// A model has as many calls from a contract as entries of the contract belong to it.
proof fn lemma_contract_calls_count(
    contract: Contract,
    computed: Seq<ComputedValueEntrypoint>,
    model: Seq<char>,
)
    ensures
        calls_for(contract_calls(contract, computed), model).len() == entries_of(computed, model),
    decreases computed.len(),
{
    if computed.len() > 0 {
        lemma_contract_calls_count(contract, computed.drop_last(), model);
        let before = contract_calls(contract, computed.drop_last());
        if let Some(m) = computed.last().model {
            assert(before.push((m@, call(contract, computed.last()))).drop_last() =~= before);
        }
    }
}

/// A model has as many calls as entries belong to it: each entry gives one call.
pub proof fn law_each_entry_gives_one_call(contracts: Seq<Contract>, model: Seq<char>)
    ensures
        calls_for(all_calls(contracts), model).len() == all_entries_of(contracts, model),
        by_model(all_calls(contracts)).contains_key(model) <==> all_entries_of(contracts, model)
            > 0,
    decreases contracts.len(),
{
    if contracts.len() > 0 {
        let front = contracts.drop_last();
        let last = contracts.last();
        law_each_entry_gives_one_call(front, model);
        lemma_contract_calls_count(last, last.computed@, model);
        lemma_calls_for_concat(
            all_calls(front),
            contract_calls(last, last.computed@),
            model,
        );
    }
}

/// No model is listed without a call.
pub proof fn law_listed_models_have_calls(contracts: Seq<Contract>, model: Seq<char>)
    requires
        by_model(all_calls(contracts)).contains_key(model),
    ensures
        by_model(all_calls(contracts))[model].len() > 0,
{
}

} // verus!
