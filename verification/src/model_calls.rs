//! The calls of computed values, by model.
use vstd::prelude::*;

use crate::computed_values::{Call, ComputedValueCall};

verus! {

/// The calls of computed values, by the model that they belong to. No model occurs twice.
#[derive(Debug)]
pub struct ComputedValues {
    entries: Vec<(String, Vec<ComputedValueCall>)>,
}

/// The calls of a vector in their mathematical form.
pub open spec fn call_views(calls: Seq<ComputedValueCall>) -> Seq<Call> {
    calls.map_values(|c: ComputedValueCall| c@)
}

/// Calls are shown one by one, in order, each with the bytes of its address and its selector.
pub proof fn law_calls_are_shown_as_they_are(calls: Seq<ComputedValueCall>)
    ensures
        call_views(calls).len() == calls.len(),
        forall|k: int|
            0 <= k < calls.len() ==> {
                &&& (#[trigger] call_views(calls)[k]).contract_address
                    == calls[k].contract_address.bytes@
                &&& call_views(calls)[k].entry_point_selector
                    == calls[k].entry_point_selector.bytes@
                &&& call_views(calls)[k].return_type == calls[k].return_type@
            },
{
}

/// Entries as a map from model to calls.
spec fn entries_map(entries: Seq<(String, Vec<ComputedValueCall>)>) -> Map<
    Seq<char>,
    Seq<Call>,
>
    decreases entries.len(),
{
    if entries.len() == 0 {
        Map::empty()
    } else {
        entries_map(entries.drop_last()).insert(
            entries.last().0@,
            call_views(entries.last().1@),
        )
    }
}

/// Whether no model occurs twice.
pub open spec fn distinct(entries: Seq<(String, Vec<ComputedValueCall>)>) -> bool {
    forall|i: int, j: int|
        0 <= i < j < entries.len() ==> (#[trigger] entries[i]).0@ != (#[trigger] entries[j]).0@
}

/// Entries without a repeated model make a map with exactly their models and their calls.
proof fn lemma_entries_map(entries: Seq<(String, Vec<ComputedValueCall>)>)
    requires
        distinct(entries),
    ensures
        forall|model: Seq<char>| #[trigger]
            entries_map(entries).contains_key(model) <==> exists|i: int|
                0 <= i < entries.len() && (#[trigger] entries[i]).0@ == model,
        forall|i: int|
            0 <= i < entries.len() ==> entries_map(entries)[(#[trigger] entries[i]).0@]
                == call_views(entries[i].1@),
    decreases entries.len(),
{
    if entries.len() > 0 {
        let front = entries.drop_last();
        assert forall|i: int, j: int| 0 <= i < j < front.len() implies (#[trigger] front[i]).0@ != (
        #[trigger] front[j]).0@ by {
            assert(front[i] == entries[i] && front[j] == entries[j]);
        }
        lemma_entries_map(front);
        assert forall|i: int| 0 <= i < entries.len() implies entries_map(
            entries,
        )[(#[trigger] entries[i]).0@] == call_views(entries[i].1@) by {
            if i < front.len() {
                assert(front[i] == entries[i]);
            }
        }
        assert forall|model: Seq<char>| #[trigger]
            entries_map(entries).contains_key(model) <==> exists|i: int|
                0 <= i < entries.len() && (#[trigger] entries[i]).0@ == model by {
            if entries_map(front).contains_key(model) {
                let i = choose|i: int| 0 <= i < front.len() && (#[trigger] front[i]).0@ == model;
                assert(entries[i].0@ == model);
            }
            if exists|i: int| 0 <= i < entries.len() && (#[trigger] entries[i]).0@ == model {
                let i = choose|i: int|
                    0 <= i < entries.len() && (#[trigger] entries[i]).0@ == model;
                if i < front.len() {
                    assert(front[i].0@ == model);
                }
            }
            if model == entries.last().0@ {
                assert(entries[entries.len() - 1].0@ == model);
            }
        }
    }
}

/// Other calls at one place of the entries replace that model's calls in the map.
proof fn lemma_replaced(
    before: Seq<(String, Vec<ComputedValueCall>)>,
    after: Seq<(String, Vec<ComputedValueCall>)>,
    i: int,
)
    requires
        distinct(before),
        0 <= i < before.len(),
        after == before.update(i, after[i]),
        after[i].0@ == before[i].0@,
    ensures
        distinct(after),
        entries_map(after) == entries_map(before).insert(
            before[i].0@,
            call_views(after[i].1@),
        ),
{
    assert forall|j: int| 0 <= j < after.len() implies (#[trigger] after[j]).0@ == before[j].0@ by {
    }
    assert(distinct(after));
    lemma_entries_map(before);
    lemma_entries_map(after);
    let expected = entries_map(before).insert(before[i].0@, call_views(after[i].1@));
    assert forall|model: Seq<char>| #[trigger]
        entries_map(after).contains_key(model) <==> expected.contains_key(model) by {
        if entries_map(after).contains_key(model) {
            let j = choose|j: int| 0 <= j < after.len() && (#[trigger] after[j]).0@ == model;
            assert(before[j].0@ == model);
        }
        if expected.contains_key(model) {
            let j = if model == before[i].0@ {
                i
            } else {
                choose|j: int| 0 <= j < before.len() && (#[trigger] before[j]).0@ == model
            };
            assert(after[j].0@ == model);
        }
    }
    assert forall|model: Seq<char>| #[trigger]
        entries_map(after).contains_key(model) implies entries_map(after)[model]
        == expected[model] by {
        let j = choose|j: int| 0 <= j < after.len() && (#[trigger] after[j]).0@ == model;
        assert(before[j].0@ == model);
    }
    assert(entries_map(after) =~= expected);
}

impl View for ComputedValues {
    type V = Map<Seq<char>, Seq<Call>>;

    closed spec fn view(&self) -> Map<Seq<char>, Seq<Call>> {
        entries_map(self.entries@)
    }
}

impl ComputedValues {
    /// No model occurs twice.
    pub closed spec fn wf(&self) -> bool {
        distinct(self.entries@)
    }

    /// No calls at all.
    pub fn new() -> (r: Self)
        ensures
            r.wf(),
            r@ == Map::<Seq<char>, Seq<Call>>::empty(),
    {
        ComputedValues { entries: Vec::new() }
    }

    /// Where the model stands among the entries.
    fn position(&self, model: &String) -> (r: Option<usize>)
        requires
            self.wf(),
        ensures
            match r {
                Some(i) => i < self.entries@.len() && self.entries@[i as int].0@ == model@,
                None => !self@.contains_key(model@),
            },
            r is Some <==> self@.contains_key(model@),
    {
        proof {
            lemma_entries_map(self.entries@);
        }
        let mut i: usize = 0;
        while i < self.entries.len()
            invariant
                i <= self.entries.len(),
                forall|j: int| 0 <= j < i ==> (#[trigger] self.entries@[j]).0@ != model@,
                forall|m: Seq<char>| #[trigger]
                    entries_map(self.entries@).contains_key(m) <==> exists|k: int|
                        0 <= k < self.entries@.len() && (#[trigger] self.entries@[k]).0@ == m,
            decreases self.entries.len() - i,
        {
            if self.entries[i].0 == *model {
                return Some(i);
            }
            i += 1;
        }
        None
    }

    /// The calls of a model.
    pub fn get(&self, model: &String) -> (r: Option<&Vec<ComputedValueCall>>)
        requires
            self.wf(),
        ensures
            match r {
                Some(calls) => self@.contains_key(model@) && self@[model@] == call_views(calls@),
                None => !self@.contains_key(model@),
            },
            r matches Some(calls) ==> {
                &&& calls@.len() == self@[model@].len()
                &&& forall|k: int|
                    0 <= k < calls@.len() ==> {
                        &&& (#[trigger] self@[model@][k]).contract_address
                            == calls@[k].contract_address.bytes@
                        &&& self@[model@][k].entry_point_selector
                            == calls@[k].entry_point_selector.bytes@
                        &&& self@[model@][k].return_type == calls@[k].return_type@
                    }
            },
    {
        proof {
            lemma_entries_map(self.entries@);
        }
        match self.position(model) {
            Some(i) => Some(&self.entries[i].1),
            None => None,
        }
    }

    /// The models with their calls, no model twice.
    pub fn into_entries(self) -> (r: Vec<(String, Vec<ComputedValueCall>)>)
        requires
            self.wf(),
        ensures
            distinct(r@),
            forall|i: int, j: int|
                0 <= i < j < r@.len() ==> (#[trigger] r@[i]).0@ != (#[trigger] r@[j]).0@,
            forall|model: Seq<char>| #[trigger]
                self@.contains_key(model) <==> exists|i: int|
                    0 <= i < r@.len() && (#[trigger] r@[i]).0@ == model,
            forall|i: int|
                0 <= i < r@.len() ==> self@[(#[trigger] r@[i]).0@] == call_views(r@[i].1@),
    {
        proof {
            lemma_entries_map(self.entries@);
        }
        self.entries
    }

    /// Adds a call behind those that the model has already.
    pub fn record(&mut self, model: String, call: ComputedValueCall)
        requires
            old(self).wf(),
        ensures
            final(self).wf(),
            final(self)@ == old(self)@.insert(
                model@,
                (if old(self)@.contains_key(model@) {
                    old(self)@[model@]
                } else {
                    Seq::empty()
                }).push(call@),
            ),
    {
        let ghost before = self.entries@;
        proof {
            lemma_entries_map(before);
        }
        match self.position(&model) {
            Some(i) => {
                self.entries[i].1.push(call);
                proof {
                    let after = self.entries@;
                    assert(call_views(after[i as int].1@) =~= call_views(
                        before[i as int].1@,
                    ).push(call@));
                    lemma_replaced(before, after, i as int);
                }
            },
            None => {
                let mut calls: Vec<ComputedValueCall> = Vec::new();
                calls.push(call);
                self.entries.push((model, calls));
                proof {
                    let after = self.entries@;
                    assert(after.drop_last() =~= before);
                    assert(call_views(calls@) =~= Seq::<Call>::empty().push(call@));
                }
            },
        }
    }
}

} // verus!
