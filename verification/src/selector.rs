//! Which processes and flows are to be looked into.
use vstd::prelude::*;

use crate::model::{
    copy_texts, Direction, FlowContext, FlowContextView, ProcessContext, ProcessContextView,
};
use crate::text::texts;

verus! {

/// Conditions on a process. An empty list puts no condition.
#[derive(Debug, Default, PartialEq, Eq)]
pub struct ProcessSelector {
    pub pids: Vec<u32>,
    pub names: Vec<String>,
    pub exe_paths: Vec<String>,
}

#[verifier::ext_equal]
pub struct ProcessSelectorView {
    pub pids: Seq<u32>,
    pub names: Seq<Seq<char>>,
    pub exe_paths: Seq<Seq<char>>,
}

impl View for ProcessSelector {
    type V = ProcessSelectorView;

    open spec fn view(&self) -> ProcessSelectorView {
        ProcessSelectorView {
            pids: self.pids@,
            names: texts(self.names@),
            exe_paths: texts(self.exe_paths@),
        }
    }
}

/// Conditions on a flow. An empty list puts no condition.
#[derive(Debug, Default, PartialEq, Eq)]
pub struct TrafficSelector {
    pub local_ports: Vec<u16>,
    pub remote_ports: Vec<u16>,
    pub directions: Vec<Direction>,
}

#[verifier::ext_equal]
pub struct TrafficSelectorView {
    pub local_ports: Seq<u16>,
    pub remote_ports: Seq<u16>,
    pub directions: Seq<Direction>,
}

impl View for TrafficSelector {
    type V = TrafficSelectorView;

    open spec fn view(&self) -> TrafficSelectorView {
        TrafficSelectorView {
            local_ports: self.local_ports@,
            remote_ports: self.remote_ports@,
            directions: self.directions@,
        }
    }
}

/// Conditions that must hold together.
#[derive(Debug, PartialEq, Eq)]
pub struct SelectorTerm {
    pub process: ProcessSelector,
    pub traffic: TrafficSelector,
}

#[verifier::ext_equal]
pub struct SelectorTermView {
    pub process: ProcessSelectorView,
    pub traffic: TrafficSelectorView,
}

impl View for SelectorTerm {
    type V = SelectorTermView;

    open spec fn view(&self) -> SelectorTermView {
        SelectorTermView { process: self.process@, traffic: self.traffic@ }
    }
}

fn copy_plain<T: Copy>(list: &Vec<T>) -> (copy: Vec<T>)
    ensures
        copy@ == list@,
{
    let mut copy: Vec<T> = Vec::new();
    let mut index: usize = 0;
    while index < list.len()
        invariant
            index <= list.len(),
            copy@ == list@.take(index as int),
        decreases list.len() - index,
    {
        copy.push(list[index]);
        assert(copy@ =~= list@.take(index + 1));
        index = index + 1;
    }
    assert(list@.take(index as int) =~= list@);
    copy
}

impl Clone for ProcessSelector {
    fn clone(&self) -> (copy: Self)
        ensures
            copy@ == self@,
    {
        ProcessSelector {
            pids: copy_plain(&self.pids),
            names: copy_texts(&self.names),
            exe_paths: copy_texts(&self.exe_paths),
        }
    }
}

impl Clone for TrafficSelector {
    fn clone(&self) -> (copy: Self)
        ensures
            copy@ == self@,
    {
        TrafficSelector {
            local_ports: copy_plain(&self.local_ports),
            remote_ports: copy_plain(&self.remote_ports),
            directions: copy_plain(&self.directions),
        }
    }
}

impl Clone for SelectorTerm {
    fn clone(&self) -> (copy: Self)
        ensures
            copy@ == self@,
    {
        SelectorTerm { process: self.process.clone(), traffic: self.traffic.clone() }
    }
}

/// Whether a list puts no condition or holds a value.
pub open spec fn admits<T>(list: Seq<T>, value: T) -> bool {
    list.len() == 0 || list.contains(value)
}

impl ProcessSelectorView {
    pub open spec fn selects(self, process: ProcessContextView) -> bool {
        &&& admits(self.pids, process.identity.pid)
        &&& admits(self.names, process.name)
        &&& admits(self.exe_paths, process.identity.exe_path)
    }
}

impl SelectorTermView {
    /// Whether one direction of a flow meets the conditions.
    pub open spec fn selects_flow(self, flow: FlowContextView, direction: Direction) -> bool {
        &&& self.process.selects(flow.process)
        &&& admits(self.traffic.local_ports, flow.local.port)
        &&& admits(self.traffic.remote_ports, flow.remote.port)
        &&& admits(self.traffic.directions, direction)
    }

    /// Whether one direction of every flow of a process meets the conditions.
    pub open spec fn selects_process(
        self,
        process: ProcessContextView,
        direction: Direction,
    ) -> bool {
        &&& self.process.selects(process)
        &&& self.traffic.local_ports.len() == 0
        &&& self.traffic.remote_ports.len() == 0
        &&& admits(self.traffic.directions, direction)
    }

    /// Whether one direction of some flow of a process can meet the conditions.
    pub open spec fn may_select_process(
        self,
        process: ProcessContextView,
        direction: Direction,
    ) -> bool {
        &&& self.process.selects(process)
        &&& admits(self.traffic.directions, direction)
    }
}

/// A selector: a flow is selected where every term selects it.
#[derive(Debug, PartialEq, Eq)]
pub struct CompiledSelector {
    pub terms: Vec<SelectorTerm>,
}

#[verifier::ext_equal]
pub struct CompiledSelectorView {
    pub terms: Seq<SelectorTermView>,
}

impl View for CompiledSelector {
    type V = CompiledSelectorView;

    open spec fn view(&self) -> CompiledSelectorView {
        CompiledSelectorView {
            terms: self.terms@.map_values(|term: SelectorTerm| term@),
        }
    }
}

impl Clone for CompiledSelector {
    fn clone(&self) -> (copy: Self)
        ensures
            copy@ == self@,
    {
        let mut terms: Vec<SelectorTerm> = Vec::new();
        let mut index: usize = 0;
        while index < self.terms.len()
            invariant
                index <= self.terms.len(),
                terms@.len() == index,
                forall|earlier: int|
                    0 <= earlier < index ==> (#[trigger] terms@[earlier])@
                        == self.terms@[earlier]@,
            decreases self.terms.len() - index,
        {
            terms.push(self.terms[index].clone());
            index = index + 1;
        }
        let copy = CompiledSelector { terms };
        assert(copy@.terms =~= self@.terms);
        copy
    }
}

impl CompiledSelectorView {
    /// Whether one direction of a flow is selected.
    pub open spec fn selects_flow(self, flow: FlowContextView, direction: Direction) -> bool {
        forall|index: int|
            0 <= index < self.terms.len() ==> (#[trigger] self.terms[index]).selects_flow(
                flow,
                direction,
            )
    }

    /// Whether one direction of every flow of a process is selected.
    pub open spec fn selects_process(
        self,
        process: ProcessContextView,
        direction: Direction,
    ) -> bool {
        forall|index: int|
            0 <= index < self.terms.len() ==> (#[trigger] self.terms[index]).selects_process(
                process,
                direction,
            )
    }

    /// Whether each term can select one direction of some flow of a process.
    pub open spec fn may_select_process(
        self,
        process: ProcessContextView,
        direction: Direction,
    ) -> bool {
        forall|index: int|
            0 <= index < self.terms.len() ==> (#[trigger] self.terms[index]).may_select_process(
                process,
                direction,
            )
    }
}

fn admits_text(list: &Vec<String>, value: &String) -> (admitted: bool)
    ensures
        admitted == admits(texts(list@), value@),
{
    if list.len() == 0 {
        return true;
    }
    let mut index: usize = 0;
    while index < list.len()
        invariant
            index <= list.len(),
            list.len() > 0,
            forall|earlier: int| 0 <= earlier < index ==> #[trigger] texts(list@)[earlier] != value@,
        decreases list.len() - index,
    {
        assert(texts(list@)[index as int] == list@[index as int]@);
        if list[index] == *value {
            return true;
        }
        index = index + 1;
    }
    false
}

fn admits_pid(list: &Vec<u32>, value: u32) -> (admitted: bool)
    ensures
        admitted == admits(list@, value),
{
    if list.len() == 0 {
        return true;
    }
    let mut index: usize = 0;
    while index < list.len()
        invariant
            index <= list.len(),
            list.len() > 0,
            forall|earlier: int| 0 <= earlier < index ==> list@[earlier] != value,
        decreases list.len() - index,
    {
        if list[index] == value {
            return true;
        }
        index = index + 1;
    }
    false
}

fn admits_port(list: &Vec<u16>, value: u16) -> (admitted: bool)
    ensures
        admitted == admits(list@, value),
{
    if list.len() == 0 {
        return true;
    }
    let mut index: usize = 0;
    while index < list.len()
        invariant
            index <= list.len(),
            list.len() > 0,
            forall|earlier: int| 0 <= earlier < index ==> list@[earlier] != value,
        decreases list.len() - index,
    {
        if list[index] == value {
            return true;
        }
        index = index + 1;
    }
    false
}

fn admits_direction(list: &Vec<Direction>, value: Direction) -> (admitted: bool)
    ensures
        admitted == admits(list@, value),
{
    if list.len() == 0 {
        return true;
    }
    let mut index: usize = 0;
    while index < list.len()
        invariant
            index <= list.len(),
            list.len() > 0,
            forall|earlier: int| 0 <= earlier < index ==> list@[earlier] != value,
        decreases list.len() - index,
    {
        if list[index] == value {
            return true;
        }
        index = index + 1;
    }
    false
}

impl ProcessSelector {
    pub fn matches(&self, process: &ProcessContext) -> (selected: bool)
        ensures
            selected == self@.selects(process@),
    {
        admits_pid(&self.pids, process.identity.pid) && admits_text(&self.names, &process.name)
            && admits_text(&self.exe_paths, &process.identity.exe_path)
    }
}

impl SelectorTerm {
    fn matches_flow(&self, flow: &FlowContext, direction: Direction) -> (selected: bool)
        ensures
            selected == self@.selects_flow(flow@, direction),
    {
        self.process.matches(&flow.process) && admits_port(
            &self.traffic.local_ports,
            flow.local.port,
        ) && admits_port(&self.traffic.remote_ports, flow.remote.port) && admits_direction(&self.traffic.directions, direction)
    }

    fn matches_process_prefilter(
        &self,
        process: &ProcessContext,
        direction: Direction,
    ) -> (selected: bool)
        ensures
            selected == self@.may_select_process(process@, direction),
    {
        self.process.matches(process) && admits_direction(&self.traffic.directions, direction)
    }
}

impl CompiledSelector {
    /// The selector of a single term.
    pub fn term(process: ProcessSelector, traffic: TrafficSelector) -> (selector: CompiledSelector)
        ensures
            selector@.terms == seq![SelectorTermView { process: process@, traffic: traffic@ }],
    {
        let mut terms: Vec<SelectorTerm> = Vec::new();
        terms.push(SelectorTerm { process, traffic });
        let selector = CompiledSelector { terms };
        assert(selector@.terms =~= seq![
            SelectorTermView { process: process@, traffic: traffic@ },
        ]);
        selector
    }

    pub fn matches_flow(&self, flow: &FlowContext, direction: Direction) -> (selected: bool)
        ensures
            selected == self@.selects_flow(flow@, direction),
    {
        let mut index: usize = 0;
        while index < self.terms.len()
            invariant
                index <= self.terms.len(),
                forall|earlier: int|
                    0 <= earlier < index ==> (#[trigger] self@.terms[earlier]).selects_flow(
                        flow@,
                        direction,
                    ),
            decreases self.terms.len() - index,
        {
            assert(self@.terms[index as int] == self.terms@[index as int]@);
            if !self.terms[index].matches_flow(flow, direction) {
                return false;
            }
            index = index + 1;
        }
        true
    }

    /// Whether a direction of the flows of a process is selected whatever the flow is.
    pub fn matches_unattributed_flow(
        &self,
        process: &ProcessContext,
        direction: Direction,
    ) -> (selected: bool)
        ensures
            selected == self@.selects_process(process@, direction),
    {
        let mut index: usize = 0;
        while index < self.terms.len()
            invariant
                index <= self.terms.len(),
                forall|earlier: int|
                    0 <= earlier < index ==> (#[trigger] self@.terms[earlier]).selects_process(
                        process@,
                        direction,
                    ),
            decreases self.terms.len() - index,
        {
            let term = &self.terms[index];
            assert(self@.terms[index as int] == self.terms@[index as int]@);
            if !term.matches_process_prefilter(process, direction)
                || term.traffic.local_ports.len() > 0 || term.traffic.remote_ports.len() > 0 {
                return false;
            }
            index = index + 1;
        }
        true
    }

    /// Whether a direction of some flow of a process can be selected.
    pub fn matches_process_prefilter(
        &self,
        process: &ProcessContext,
        direction: Direction,
    ) -> (selected: bool)
        ensures
            selected == self@.may_select_process(process@, direction),
    {
        let mut index: usize = 0;
        while index < self.terms.len()
            invariant
                index <= self.terms.len(),
                forall|earlier: int|
                    0 <= earlier < index ==> (#[trigger] self@.terms[earlier]).may_select_process(
                        process@,
                        direction,
                    ),
            decreases self.terms.len() - index,
        {
            assert(self@.terms[index as int] == self.terms@[index as int]@);
            if !self.terms[index].matches_process_prefilter(process, direction) {
                return false;
            }
            index = index + 1;
        }
        true
    }
}

/// What is selected for a whole process is selected for each of its flows, and what is selected
/// for a flow passes the filter on its process.
pub proof fn law_process_selection_bounds_flow_selection(
    selector: CompiledSelectorView,
    flow: FlowContextView,
    direction: Direction,
)
    ensures
        selector.selects_process(flow.process, direction) ==> selector.selects_flow(
            flow,
            direction,
        ),
        selector.selects_flow(flow, direction) ==> selector.may_select_process(
            flow.process,
            direction,
        ),
{
    if selector.selects_process(flow.process, direction) {
        assert forall|index: int| 0 <= index < selector.terms.len() implies (
        #[trigger] selector.terms[index]).selects_flow(flow, direction) by {
            assert(selector.terms[index].selects_process(flow.process, direction));
        }
    }
    if selector.selects_flow(flow, direction) {
        assert forall|index: int| 0 <= index < selector.terms.len() implies (
        #[trigger] selector.terms[index]).may_select_process(flow.process, direction) by {
            assert(selector.terms[index].selects_flow(flow, direction));
        }
    }
}

/// Whether a value meets a condition: there is none, or it is one of those that are listed.
pub open spec fn meets<T>(condition: Seq<T>, value: T) -> bool {
    condition.len() > 0 ==> exists|index: int|
        0 <= index < condition.len() && #[trigger] condition[index] == value
}

/// A flow is selected in a direction exactly if it meets every condition of every term: on the
/// number, the name and the program of its process, on the ports of its two ends, and on the
/// direction.
pub proof fn law_selected_flow_meets_every_condition(
    selector: CompiledSelectorView,
    flow: FlowContextView,
    direction: Direction,
)
    ensures
        selector.selects_flow(flow, direction) <==> forall|index: int|
            0 <= index < selector.terms.len() ==> {
                let term = #[trigger] selector.terms[index];
                &&& meets(term.process.pids, flow.process.identity.pid)
                &&& meets(term.process.names, flow.process.name)
                &&& meets(term.process.exe_paths, flow.process.identity.exe_path)
                &&& meets(term.traffic.local_ports, flow.local.port)
                &&& meets(term.traffic.remote_ports, flow.remote.port)
                &&& meets(term.traffic.directions, direction)
            },
{
    assert forall|index: int| 0 <= index < selector.terms.len() implies ({
        let term = #[trigger] selector.terms[index];
        term.selects_flow(flow, direction) == {
            &&& meets(term.process.pids, flow.process.identity.pid)
            &&& meets(term.process.names, flow.process.name)
            &&& meets(term.process.exe_paths, flow.process.identity.exe_path)
            &&& meets(term.traffic.local_ports, flow.local.port)
            &&& meets(term.traffic.remote_ports, flow.remote.port)
            &&& meets(term.traffic.directions, direction)
        }
    }) by {
        let term = selector.terms[index];
        lemma_meets(term.process.pids, flow.process.identity.pid);
        lemma_meets(term.process.names, flow.process.name);
        lemma_meets(term.process.exe_paths, flow.process.identity.exe_path);
        lemma_meets(term.traffic.local_ports, flow.local.port);
        lemma_meets(term.traffic.remote_ports, flow.remote.port);
        lemma_meets(term.traffic.directions, direction);
    }
}

proof fn lemma_meets<T>(condition: Seq<T>, value: T)
    ensures
        admits(condition, value) == meets(condition, value),
{
}

/// One more term selects no more than the others do together, and nothing that it does not select
/// itself.
pub proof fn law_terms_select_together(
    selector: CompiledSelectorView,
    term: SelectorTermView,
    flow: FlowContextView,
    direction: Direction,
)
    ensures
        (CompiledSelectorView { terms: selector.terms.push(term) }).selects_flow(flow, direction)
            <==> selector.selects_flow(flow, direction) && (CompiledSelectorView {
            terms: seq![term],
        }).selects_flow(flow, direction),
{
    let longer = CompiledSelectorView { terms: selector.terms.push(term) };
    let alone = CompiledSelectorView { terms: seq![term] };
    assert(longer.terms[selector.terms.len() as int] == term);
    assert(alone.terms[0] == term);
    assert forall|index: int| 0 <= index < selector.terms.len() implies longer.terms[index]
        == #[trigger] selector.terms[index] by {}
    if longer.selects_flow(flow, direction) {
        assert forall|index: int| 0 <= index < selector.terms.len() implies (
        #[trigger] selector.terms[index]).selects_flow(flow, direction) by {
            assert(longer.terms[index].selects_flow(flow, direction));
        }
        assert(longer.terms[selector.terms.len() as int].selects_flow(flow, direction));
    }
}

} // verus!
