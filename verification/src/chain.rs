//! The map-reduce inference chain: one inference call for every page, then
//! one call over what those calls returned.
//!
//! The library makes no call itself. It renders the prompts, keeps what
//! came back, and decides what is due next; the caller performs the calls
//! and reports how each one ended.

use vstd::prelude::*;
use vstd::string::*;

use crate::splitter::Page;
use crate::text::{find_from, occurs_only_at, to_chars};

verus! {

/// The text that marks, in the user part of a prompt, where the page goes.
pub open spec fn placeholder() -> Seq<char> {
    "{{text}}"@
}

/// A prompt in two parts: the system instructions, and the user content
/// with one slot for a text, between `lead` and `tail`.
#[derive(Debug)]
pub struct PromptTemplate {
    system: String,
    lead: String,
    tail: String,
}

pub struct PromptTemplateView {
    pub system: Seq<char>,
    pub lead: Seq<char>,
    pub tail: Seq<char>,
}

impl View for PromptTemplate {
    type V = PromptTemplateView;

    closed spec fn view(&self) -> PromptTemplateView {
        PromptTemplateView { system: self.system@, lead: self.lead@, tail: self.tail@ }
    }
}

/// One inference call: the system instructions and the user content.
#[derive(Debug)]
pub struct InferenceRequest {
    pub system: String,
    pub user: String,
}

pub struct InferenceRequestView {
    pub system: Seq<char>,
    pub user: Seq<char>,
}

impl View for InferenceRequest {
    type V = InferenceRequestView;

    open spec fn view(&self) -> InferenceRequestView {
        InferenceRequestView { system: self.system@, user: self.user@ }
    }
}

/// The call that `template` makes for `text`: the text stands in the slot.
pub open spec fn rendered(template: PromptTemplateView, text: Seq<char>) -> InferenceRequestView {
    InferenceRequestView { system: template.system, user: template.lead + text + template.tail }
}

impl PromptTemplate {
    /// The template with the given system instructions, whose user content
    /// is `lead`, the text, and `tail`.
    pub fn new(system: String, lead: String, tail: String) -> (template: PromptTemplate)
        ensures
            template@ == (PromptTemplateView { system: system@, lead: lead@, tail: tail@ }),
    {
        PromptTemplate { system, lead, tail }
    }

    /// Reads a template whose user content marks the slot with the
    /// placeholder. The placeholder has to stand in `user` exactly once:
    /// the template is then `user` with the slot in its place. Otherwise
    /// there is no template.
    pub fn parse(system: &str, user: &str) -> (parsed: Option<PromptTemplate>)
        ensures
            match parsed {
                Some(template) => {
                    &&& template@.system == system@
                    &&& occurs_only_at(user@, placeholder(), template@.lead.len() as int)
                    &&& template@.lead + placeholder() + template@.tail == user@
                },
                None => forall|at: int| !occurs_only_at(user@, placeholder(), at),
            },
    {
        let chars = to_chars(user);
        let mark = to_chars("{{text}}");
        proof {
            reveal_strlit("{{text}}");
            assert(mark@ == placeholder());
            assert(mark@.len() == 8);
        }
        let len = chars.len();
        match find_from(&chars, &mark, 0) {
            None => None,
            Some(at) => {
                assert(at + 8 <= len);
                match find_from(&chars, &mark, at + 1) {
                    Some(again) => None,
                    None => {
                        let behind = at + mark.len();
                        let lead = String::from_str(user.substring_char(0, at));
                        let tail = String::from_str(user.substring_char(behind, len));
                        proof {
                            assert(user@.subrange(0, at as int) + placeholder() + user@.subrange(
                                behind as int,
                                len as int,
                            ) =~= user@);
                        }
                        Some(PromptTemplate { system: String::from_str(system), lead, tail })
                    },
                }
            },
        }
    }

    /// The call for `text`.
    pub fn render(&self, text: &str) -> (request: InferenceRequest)
        ensures
            request@ == rendered(self@, text@),
    {
        let mut user = self.lead.clone();
        user.append(text);
        user.append(self.tail.as_str());
        InferenceRequest { system: self.system.clone(), user }
    }
}

/// The two prompts of a run: one for every page, one for combining what
/// the pages gave.
#[derive(Debug)]
pub struct Rubric {
    pub map: PromptTemplate,
    pub reduce: PromptTemplate,
}

/// Where a run stands.
#[derive(Clone, Copy, Debug, PartialEq, Eq, Structural)]
pub enum ChainPhase {
    /// Map calls are out.
    Mapping,
    /// Every map call has returned; the reduce call is out.
    Reducing,
    /// The reduce call has returned.
    Finished,
    /// A call failed; the run is abandoned.
    Failed,
}

/// How an inference call ended.
#[derive(Debug)]
pub enum ChainEvent {
    /// The map call for the page numbered `page` returned `output`.
    Mapped { page: usize, output: String },
    /// The map call for the page numbered `page` failed.
    MapFailed { page: usize },
    /// The reduce call returned `output`.
    Reduced { output: String },
    /// The reduce call failed.
    ReduceFailed,
}

pub enum ChainEventView {
    Mapped { page: int, output: Seq<char> },
    MapFailed { page: int },
    Reduced { output: Seq<char> },
    ReduceFailed,
}

impl View for ChainEvent {
    type V = ChainEventView;

    open spec fn view(&self) -> ChainEventView {
        match self {
            ChainEvent::Mapped { page, output } => ChainEventView::Mapped {
                page: *page as int,
                output: output@,
            },
            ChainEvent::MapFailed { page } => ChainEventView::MapFailed { page: *page as int },
            ChainEvent::Reduced { output } => ChainEventView::Reduced { output: output@ },
            ChainEvent::ReduceFailed => ChainEventView::ReduceFailed,
        }
    }
}

/// What the caller does next.
#[derive(Debug)]
pub enum ChainStep {
    /// Make these calls, the call numbered `i` for the page numbered `i`;
    /// they do not depend on one another.
    MapCalls(Vec<InferenceRequest>),
    /// Nothing new is due: calls are still out.
    Wait,
    /// Make this one call.
    ReduceCall(InferenceRequest),
    /// The run is over; this is its result.
    Finished(String),
    /// The run is abandoned because a call failed.
    Failed,
    /// The run was over before the event came.
    Over,
}

pub enum ChainStepView {
    MapCalls(Seq<InferenceRequestView>),
    Wait,
    ReduceCall(InferenceRequestView),
    Finished(Seq<char>),
    Failed,
    Over,
}

/// The calls in `requests`, each as what it says.
pub open spec fn request_views(requests: Seq<InferenceRequest>) -> Seq<InferenceRequestView> {
    requests.map_values(|request: InferenceRequest| request@)
}

impl View for ChainStep {
    type V = ChainStepView;

    open spec fn view(&self) -> ChainStepView {
        match self {
            ChainStep::MapCalls(requests) => ChainStepView::MapCalls(request_views(requests@)),
            ChainStep::Wait => ChainStepView::Wait,
            ChainStep::ReduceCall(request) => ChainStepView::ReduceCall(request@),
            ChainStep::Finished(result) => ChainStepView::Finished(result@),
            ChainStep::Failed => ChainStepView::Failed,
            ChainStep::Over => ChainStepView::Over,
        }
    }
}

/// One run of the chain.
#[derive(Debug)]
pub struct Chain {
    reduce: PromptTemplate,
    outputs: Vec<Option<String>>,
    phase: ChainPhase,
}

/// What a run knows: the prompt for the reduce call, what each page's map
/// call returned so far, and where the run stands.
pub struct ChainView {
    pub reduce: PromptTemplateView,
    pub outputs: Seq<Option<Seq<char>>>,
    pub phase: ChainPhase,
}

/// What the map calls returned so far, each as its text.
pub open spec fn output_views(outputs: Seq<Option<String>>) -> Seq<Option<Seq<char>>> {
    outputs.map_values(
        |output: Option<String>|
            match output {
                Some(text) => Some(text@),
                None => None,
            },
    )
}

impl View for Chain {
    type V = ChainView;

    closed spec fn view(&self) -> ChainView {
        ChainView { reduce: self.reduce@, outputs: output_views(self.outputs@), phase: self.phase }
    }
}

/// Every map call has returned.
pub open spec fn all_returned(outputs: Seq<Option<Seq<char>>>) -> bool {
    forall|page: int| 0 <= page < outputs.len() ==> (#[trigger] outputs[page]) is Some
}

/// The outputs that are there, one behind the other in page order, with
/// nothing between them.
pub open spec fn joined(outputs: Seq<Option<Seq<char>>>) -> Seq<char>
    decreases outputs.len(),
{
    if outputs.len() == 0 {
        Seq::empty()
    } else {
        joined(outputs.drop_last()) + match outputs.last() {
            Some(text) => text,
            None => Seq::empty(),
        }
    }
}

/// The texts of `pages`, in order.
pub open spec fn page_texts(pages: Seq<Page>) -> Seq<Seq<char>> {
    pages.map_values(|page: Page| page@.text)
}

/// The run for pages with `texts`, and the first step: the map calls, one
/// for each page; where there is no page, the reduce call at once.
pub open spec fn opening(rubric: (PromptTemplateView, PromptTemplateView), texts: Seq<Seq<char>>) -> (
    ChainView,
    ChainStepView,
) {
    let state = ChainView {
        reduce: rubric.1,
        outputs: Seq::new(texts.len(), |page: int| None::<Seq<char>>),
        phase: if texts.len() == 0 {
            ChainPhase::Reducing
        } else {
            ChainPhase::Mapping
        },
    };
    let step = if texts.len() == 0 {
        ChainStepView::ReduceCall(rendered(rubric.1, Seq::empty()))
    } else {
        ChainStepView::MapCalls(Seq::new(texts.len(), |page: int| rendered(rubric.0, texts[page])))
    };
    (state, step)
}

/// The run after `event`, and what the caller does next.
///
/// While map calls are out, the output of a page that was awaited is kept;
/// the reduce call is due when that output was the last one awaited, and
/// its text is all outputs concatenated in page order. A failed map call
/// abandons the run at once. While the reduce call is out, its return ends
/// the run. An event that nothing waits for changes nothing.
pub open spec fn transition(state: ChainView, event: ChainEventView) -> (ChainView, ChainStepView) {
    match state.phase {
        ChainPhase::Mapping => match event {
            ChainEventView::Mapped { page, output } => {
                if 0 <= page < state.outputs.len() && state.outputs[page] is None {
                    let outputs = state.outputs.update(page, Some(output));
                    if all_returned(outputs) {
                        (
                            ChainView { outputs, phase: ChainPhase::Reducing, ..state },
                            ChainStepView::ReduceCall(rendered(state.reduce, joined(outputs))),
                        )
                    } else {
                        (ChainView { outputs, ..state }, ChainStepView::Wait)
                    }
                } else {
                    (state, ChainStepView::Wait)
                }
            },
            ChainEventView::MapFailed { .. } => (
                ChainView { phase: ChainPhase::Failed, ..state },
                ChainStepView::Failed,
            ),
            _ => (state, ChainStepView::Wait),
        },
        ChainPhase::Reducing => match event {
            ChainEventView::Reduced { output } => (
                ChainView { phase: ChainPhase::Finished, ..state },
                ChainStepView::Finished(output),
            ),
            ChainEventView::ReduceFailed => (
                ChainView { phase: ChainPhase::Failed, ..state },
                ChainStepView::Failed,
            ),
            _ => (state, ChainStepView::Wait),
        },
        ChainPhase::Finished => (state, ChainStepView::Over),
        ChainPhase::Failed => (state, ChainStepView::Over),
    }
}

/// Whether every one of `outputs` is there.
fn every_output_is_in(outputs: &Vec<Option<String>>) -> (yes: bool)
    ensures
        yes == all_returned(output_views(outputs@)),
{
    let mut page: usize = 0;
    while page < outputs.len()
        invariant
            page <= outputs.len(),
            forall|p: int| 0 <= p < page ==> (#[trigger] output_views(outputs@)[p]) is Some,
        decreases outputs.len() - page,
    {
        if outputs[page].is_none() {
            proof {
                assert(output_views(outputs@)[page as int] is None);
            }
            return false;
        }
        page = page + 1;
    }
    true
}

/// The outputs that are there, one behind the other in page order.
fn join(outputs: &Vec<Option<String>>) -> (text: String)
    ensures
        text@ == joined(output_views(outputs@)),
{
    let ghost views = output_views(outputs@);
    let mut text = String::new();
    let mut page: usize = 0;
    while page < outputs.len()
        invariant
            views == output_views(outputs@),
            page <= outputs.len(),
            text@ == joined(views.take(page as int)),
        decreases outputs.len() - page,
    {
        proof {
            assert(views.take(page + 1).drop_last() =~= views.take(page as int));
            assert(views.take(page + 1).last() == views[page as int]);
        }
        match &outputs[page] {
            Some(output) => {
                text.append(output.as_str());
            },
            None => {},
        }
        proof {
            assert(text@ =~= joined(views.take(page + 1)));
        }
        page = page + 1;
    }
    proof {
        assert(views.take(page as int) =~= views);
    }
    text
}

impl Chain {
    /// Starts a run over `pages`.
    pub fn start(rubric: Rubric, pages: &Vec<Page>) -> (started: (Chain, ChainStep))
        ensures
            (started.0@, started.1@) == opening((rubric.map@, rubric.reduce@), page_texts(pages@)),
    {
        let ghost texts = page_texts(pages@);
        let mut outputs: Vec<Option<String>> = Vec::new();
        let mut requests: Vec<InferenceRequest> = Vec::new();
        let mut page: usize = 0;
        while page < pages.len()
            invariant
                texts == page_texts(pages@),
                page <= pages.len(),
                outputs.len() == page,
                requests.len() == page,
                forall|p: int| 0 <= p < page ==> (#[trigger] outputs[p]) is None,
                forall|p: int|
                    0 <= p < page ==> (#[trigger] requests[p])@ == rendered(rubric.map@, texts[p]),
            decreases pages.len() - page,
        {
            requests.push(rubric.map.render(pages[page].text()));
            outputs.push(None);
            page = page + 1;
        }
        if pages.len() == 0 {
            let request = rubric.reduce.render("");
            proof {
                reveal_strlit("");
                assert(""@ =~= Seq::<char>::empty());
            }
            let chain = Chain { reduce: rubric.reduce, outputs, phase: ChainPhase::Reducing };
            proof {
                assert(chain@.outputs =~= opening(
                    (rubric.map@, rubric.reduce@),
                    texts,
                ).0.outputs);
            }
            (chain, ChainStep::ReduceCall(request))
        } else {
            let chain = Chain { reduce: rubric.reduce, outputs, phase: ChainPhase::Mapping };
            proof {
                assert(chain@.outputs =~= opening(
                    (rubric.map@, rubric.reduce@),
                    texts,
                ).0.outputs);
                assert(request_views(requests@) =~= Seq::new(
                    texts.len(),
                    |p: int| rendered(rubric.map@, texts[p]),
                ));
            }
            (chain, ChainStep::MapCalls(requests))
        }
    }

    /// Where the run stands.
    pub fn phase(&self) -> (phase: ChainPhase)
        ensures
            phase == self@.phase,
    {
        self.phase
    }

    /// The number of pages of the run.
    pub fn pages(&self) -> (pages: usize)
        ensures
            pages == self@.outputs.len(),
    {
        self.outputs.len()
    }

    /// Takes how a call ended and says what to do next.
    pub fn advance(&mut self, event: ChainEvent) -> (step: ChainStep)
        ensures
            (final(self)@, step@) == transition(old(self)@, event@),
    {
        match self.phase {
            ChainPhase::Mapping => match event {
                ChainEvent::Mapped { page, output } => {
                    if page < self.outputs.len() && self.outputs[page].is_none() {
                        let ghost before = output_views(self.outputs@);
                        self.outputs.set(page, Some(output));
                        proof {
                            assert(output_views(self.outputs@) =~= before.update(
                                page as int,
                                Some(output@),
                            ));
                        }
                        if every_output_is_in(&self.outputs) {
                            self.phase = ChainPhase::Reducing;
                            let text = join(&self.outputs);
                            ChainStep::ReduceCall(self.reduce.render(text.as_str()))
                        } else {
                            ChainStep::Wait
                        }
                    } else {
                        ChainStep::Wait
                    }
                },
                ChainEvent::MapFailed { page } => {
                    self.phase = ChainPhase::Failed;
                    ChainStep::Failed
                },
                _ => ChainStep::Wait,
            },
            ChainPhase::Reducing => match event {
                ChainEvent::Reduced { output } => {
                    self.phase = ChainPhase::Finished;
                    ChainStep::Finished(output)
                },
                ChainEvent::ReduceFailed => {
                    self.phase = ChainPhase::Failed;
                    ChainStep::Failed
                },
                _ => ChainStep::Wait,
            },
            ChainPhase::Finished => ChainStep::Over,
            ChainPhase::Failed => ChainStep::Over,
        }
    }
}

/// The run that began as `start`, after `events` in their order.
pub open spec fn state_after(start: ChainView, events: Seq<ChainEventView>) -> ChainView
    decreases events.len(),
{
    if events.len() == 0 {
        start
    } else {
        transition(state_after(start, events.drop_last()), events.last()).0
    }
}

/// What the caller is told when the event numbered `k` of `events` comes.
pub open spec fn step_at(start: ChainView, events: Seq<ChainEventView>, k: int) -> ChainStepView {
    transition(state_after(start, events.take(k)), events[k]).1
}

/// `event` reports that the map call for `page` returned.
pub open spec fn returns_page(event: ChainEventView, page: int) -> bool {
    event matches ChainEventView::Mapped { page: p, .. } && p == page
}

/// One of the events up to the one numbered `k` reports that the map call
/// for `page` returned.
pub open spec fn has_returned_by(events: Seq<ChainEventView>, k: int, page: int) -> bool {
    exists|i: int| 0 <= i <= k && #[trigger] returns_page(events[i], page)
}

/// `event` reports that a map call failed.
pub open spec fn reports_map_failure(event: ChainEventView) -> bool {
    event is MapFailed
}

proof fn lemma_while_mapping(start: ChainView, events: Seq<ChainEventView>)
    requires
        start.phase == ChainPhase::Mapping,
        forall|p: int| 0 <= p < start.outputs.len() ==> (#[trigger] start.outputs[p]) is None,
    ensures
        ({
            let state = state_after(start, events);
            &&& state.reduce == start.reduce
            &&& state.outputs.len() == start.outputs.len()
            &&& state.phase == ChainPhase::Mapping ==> {
                &&& forall|i: int|
                    0 <= i < events.len() ==> !#[trigger] reports_map_failure(events[i])
                &&& forall|p: int|
                    0 <= p < state.outputs.len() && (#[trigger] state.outputs[p]) is Some
                        ==> exists|i: int|
                        0 <= i < events.len() && #[trigger] returns_page(events[i], p)
            }
        }),
    decreases events.len(),
{
    if events.len() > 0 {
        let before = events.drop_last();
        let earlier = state_after(start, before);
        let state = state_after(start, events);
        lemma_while_mapping(start, before);
        if state.phase == ChainPhase::Mapping {
            assert(earlier.phase == ChainPhase::Mapping);
            assert forall|i: int| 0 <= i < events.len() implies !#[trigger] reports_map_failure(
                events[i],
            ) by {
                if i < before.len() {
                    assert(!reports_map_failure(before[i]));
                }
            }
            assert forall|p: int|
                0 <= p < state.outputs.len() && (#[trigger] state.outputs[p]) is Some implies exists|
                i: int,
            |
                0 <= i < events.len() && #[trigger] returns_page(events[i], p) by {
                if earlier.outputs[p] is Some {
                    let i = choose|i: int| 0 <= i < before.len() && #[trigger] returns_page(before[i], p);
                    assert(returns_page(events[i], p));
                } else {
                    assert(returns_page(events[events.len() - 1], p));
                }
            }
        }
    }
}

proof fn lemma_phase_never_returns(start: ChainView, events: Seq<ChainEventView>, j: int)
    requires
        0 <= j <= events.len(),
        state_after(start, events.take(j)).phase != ChainPhase::Mapping,
    ensures
        state_after(start, events).phase != ChainPhase::Mapping,
    decreases events.len(),
{
    if j == events.len() {
        assert(events.take(j) =~= events);
    } else {
        assert(events.drop_last().take(j) =~= events.take(j));
        lemma_phase_never_returns(start, events.drop_last(), j);
    }
}

/// The barrier between map and reduce. Whatever events come in whatever
/// order: when an event has the caller told to make the reduce call, every
/// page's map call has reported its return, no map call has reported a
/// failure, and the call carries all outputs in page order; and no other
/// event has the caller told so.
pub proof fn law_reduce_waits_for_every_map(
    rubric: (PromptTemplateView, PromptTemplateView),
    texts: Seq<Seq<char>>,
    events: Seq<ChainEventView>,
    k: int,
)
    requires
        0 <= k < events.len(),
        step_at(opening(rubric, texts).0, events, k) is ReduceCall,
    ensures
        forall|page: int| 0 <= page < texts.len() ==> #[trigger] has_returned_by(events, k, page),
        forall|i: int| 0 <= i <= k ==> !#[trigger] reports_map_failure(events[i]),
        step_at(opening(rubric, texts).0, events, k) == ChainStepView::ReduceCall(
            rendered(rubric.1, joined(state_after(opening(rubric, texts).0, events.take(k + 1)).outputs)),
        ),
        all_returned(state_after(opening(rubric, texts).0, events.take(k + 1)).outputs),
        forall|j: int|
            0 <= j < events.len() && j != k ==> !(#[trigger] step_at(
                opening(rubric, texts).0,
                events,
                j,
            ) is ReduceCall),
{
    let start = opening(rubric, texts).0;
    let before = events.take(k);
    let state = state_after(start, before);
    if texts.len() == 0 {
        assert(before.take(0) =~= Seq::<ChainEventView>::empty());
        lemma_phase_never_returns(start, before, 0);
    }
    lemma_while_mapping(start, before);
    assert(events.take(k + 1).drop_last() =~= before);
    assert(events.take(k + 1).last() == events[k]);
    let next = state_after(start, events.take(k + 1));
    assert(next == transition(state, events[k]).0);
    assert(state.phase == ChainPhase::Mapping);
    let page_k = events[k]->Mapped_page;
    assert forall|page: int| 0 <= page < texts.len() implies #[trigger] has_returned_by(
        events,
        k,
        page,
    ) by {
        if page == page_k {
            assert(returns_page(events[k], page));
        } else {
            assert(next.outputs[page] is Some);
            assert(state.outputs[page] is Some);
            let i = choose|i: int| 0 <= i < before.len() && #[trigger] returns_page(before[i], page);
            assert(returns_page(events[i], page));
        }
    }
    assert forall|i: int| 0 <= i <= k implies !#[trigger] reports_map_failure(events[i]) by {
        if i < k {
            assert(!reports_map_failure(before[i]));
        }
    }
    assert forall|j: int| 0 <= j < events.len() && j != k implies !(#[trigger] step_at(
        start,
        events,
        j,
    ) is ReduceCall) by {
        if j < k {
            if step_at(start, events, j) is ReduceCall {
                assert(events.take(j + 1).drop_last() =~= events.take(j));
                assert(state_after(start, events.take(j + 1)).phase == ChainPhase::Reducing);
                assert(before.take(j + 1) =~= events.take(j + 1));
                lemma_phase_never_returns(start, before, j + 1);
            }
        } else {
            assert(events.take(j).take(k + 1) =~= events.take(k + 1));
            lemma_phase_never_returns(start, events.take(j), k + 1);
        }
    }
}

/// A failed map call abandons the run: from then on the caller is never
/// told to make the reduce call, whatever comes.
pub proof fn law_map_failure_aborts(
    rubric: (PromptTemplateView, PromptTemplateView),
    texts: Seq<Seq<char>>,
    events: Seq<ChainEventView>,
    failed: int,
    k: int,
)
    requires
        0 <= failed <= k < events.len(),
        reports_map_failure(events[failed]),
    ensures
        !(step_at(opening(rubric, texts).0, events, k) is ReduceCall),
{
    if step_at(opening(rubric, texts).0, events, k) is ReduceCall {
        law_reduce_waits_for_every_map(rubric, texts, events, k);
    }
}

} // verus!
