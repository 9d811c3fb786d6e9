//! # Jebediah's core AI
//!
//! The explorer states `Idle`, `OnPlanet` and `Traveling` are declared here,
//! with the sealed marker trait [`State`] that the program driving the
//! explorer takes as the type parameter of its explorer.
//!
//! Jebediah's main priority is fast exploration:
//! - ask neighbors as soon as the AI starts;
//! - travel immediately when a destination is known;
//! - ask neighbors again immediately after every successful move;
//! - resource-related requests are still supported, but movement has priority.
//!
//! The decisions live in [`JebCore`]: given a command of the orchestrator, it
//! updates what Jebediah knows and says which messages to send. Channels,
//! logging and the waiting loop belong to the program that drives it.

use vstd::prelude::*;
use common_game::utils::ID;
use common_game::components::resource::BasicResource;
use super::mapping::{GalaxyMap, count_of, links_of, recorded_visits, recorded_links};
use super::bag::{JebBag, summary_of};
use super::mood::{Mood, JebEvent, phrase_of, initial_phrase};
use super::navigation::{pick_destination, is_destination};
use super::resources::{BasicKind, ComplexKind, ResourceKind, BASIC_KINDS, COMPLEX_KINDS, basic_slot, kind_of_basic};

mod sealed;

verus! {

/// Explorer is waiting for the orchestrator to start it.
pub struct Idle;

/// Explorer is on a planet and can interact with it.
pub struct OnPlanet {
    pub planet_id: ID,
}

/// Explorer is in transit between two planets.
pub struct Traveling {
    pub destination: ID,
}

/// Marker trait for valid explorer states.
pub trait State: sealed::Sealed {}

impl State for Idle {}

impl State for OnPlanet {}

impl State for Traveling {}


/// A message of the orchestrator, with the values the decisions read.
///
/// `MoveToPlanet` says whether the orchestrator granted the move (it sent a
/// channel to the new planet); the channel itself stays with the caller.
#[derive(Clone)]
pub enum Command {
    StartExplorerAI,
    ResetExplorerAI,
    KillExplorer,
    StopExplorerAI,
    MoveToPlanet { planet_id: ID, granted: bool },
    CurrentPlanetRequest,
    SupportedResourceRequest,
    SupportedCombinationRequest,
    GenerateResourceRequest { to_generate: BasicKind },
    CombineResourceRequest { to_generate: ComplexKind },
    BagContentRequest,
    NeighborsResponse { neighbors: Vec<ID> },
}

/// What a planet answered to a request to generate a basic resource.
pub enum GenerateOutcome {
    /// The planet made the resource.
    Generated(BasicResource),
    /// The planet answered that it could not make it.
    Refused,
    /// The planet answered with another kind of message.
    Unexpected,
    /// No answer could be received.
    NoReply,
}

/// The kinds of message a planet sends to an explorer.
pub enum PlanetReplyKind {
    SupportedResourceResponse,
    SupportedCombinationResponse,
    GenerateResourceResponse,
    CombineResourceResponse,
    AvailableEnergyCellResponse,
    Stopped,
}

/// A message to the orchestrator; the explorer's identifier is added when
/// it is sent.
pub enum Reply {
    StartExplorerAIResult,
    KillExplorerResult,
    ResetExplorerAIResult,
    StopExplorerAIResult,
    MovedToPlanetResult { planet_id: ID },
    CurrentPlanetResult { planet_id: ID },
    GenerateResourceResponse { generated: Result<(), &'static str> },
    CombineResourceResponse { generated: Result<(), &'static str> },
    BagContentResponse { bag_content: Vec<(ResourceKind, usize)> },
    NeighborsRequest { current_planet_id: ID },
    TravelToPlanetRequest { current_planet_id: ID, dst_planet_id: ID },
}

/// A message to the orchestrator as a mathematical value.
pub enum ReplyView {
    StartExplorerAIResult,
    KillExplorerResult,
    ResetExplorerAIResult,
    StopExplorerAIResult,
    MovedToPlanetResult { planet_id: ID },
    CurrentPlanetResult { planet_id: ID },
    GenerateResourceResponse { generated: Result<(), &'static str> },
    CombineResourceResponse { generated: Result<(), &'static str> },
    BagContentResponse { bag_content: Seq<(ResourceKind, usize)> },
    NeighborsRequest { current_planet_id: ID },
    TravelToPlanetRequest { current_planet_id: ID, dst_planet_id: ID },
}

impl View for Reply {
    type V = ReplyView;

    open spec fn view(&self) -> ReplyView {
        match self {
            Reply::StartExplorerAIResult => ReplyView::StartExplorerAIResult,
            Reply::KillExplorerResult => ReplyView::KillExplorerResult,
            Reply::ResetExplorerAIResult => ReplyView::ResetExplorerAIResult,
            Reply::StopExplorerAIResult => ReplyView::StopExplorerAIResult,
            Reply::MovedToPlanetResult { planet_id } => ReplyView::MovedToPlanetResult { planet_id: *planet_id },
            Reply::CurrentPlanetResult { planet_id } => ReplyView::CurrentPlanetResult { planet_id: *planet_id },
            Reply::GenerateResourceResponse { generated } => ReplyView::GenerateResourceResponse {
                generated: *generated,
            },
            Reply::CombineResourceResponse { generated } => ReplyView::CombineResourceResponse {
                generated: *generated,
            },
            Reply::BagContentResponse { bag_content } => ReplyView::BagContentResponse {
                bag_content: bag_content@,
            },
            Reply::NeighborsRequest { current_planet_id } => ReplyView::NeighborsRequest {
                current_planet_id: *current_planet_id,
            },
            Reply::TravelToPlanetRequest { current_planet_id, dst_planet_id } => ReplyView::TravelToPlanetRequest {
                current_planet_id: *current_planet_id,
                dst_planet_id: *dst_planet_id,
            },
        }
    }
}

/// A request the explorer makes to the planet it is on.
pub enum PlanetRequest {
    SupportedResourceRequest,
    SupportedCombinationRequest,
    GenerateResourceRequest { resource: BasicKind },
}

/// The result of one decision: the messages to send to the orchestrator, in
/// order; the request to make to the current planet, if any, after which the
/// caller reports the planet's answer; and whether the explorer keeps running.
pub struct Step {
    pub replies: Vec<Reply>,
    pub planet_request: Option<PlanetRequest>,
    pub keep_running: bool,
}

/// Replies as mathematical values.
pub open spec fn views_of(replies: Seq<Reply>) -> Seq<ReplyView> {
    replies.map_values(|r: Reply| r@)
}

impl Step {
    /// The replies as mathematical values.
    pub open spec fn sent(&self) -> Seq<ReplyView> {
        views_of(self.replies@)
    }
}

/// Appends a reply.
fn push_reply(replies: &mut Vec<Reply>, reply: Reply)
    ensures
        views_of(final(replies)@) == views_of(old(replies)@).push(reply@),
{
    let ghost r = reply@;
    replies.push(reply);
    assert(views_of(replies@) =~= views_of(old(replies)@).push(r));
}

/// The error sent when a planet refuses to generate a resource.
pub open spec fn refused_text() -> &'static str {
    "planet could not generate the resource"
}

/// The error sent when the planet's answer to a generation request is lost.
pub open spec fn lost_text() -> &'static str {
    "failed to receive GenerateResourceResponse from planet"
}

/// The error sent for every combination request.
pub open spec fn combine_text() -> &'static str {
    "combine not yet implemented"
}

/// Asking the orchestrator for the neighbors of the current planet, when
/// it is known.
pub open spec fn ask_neighbors(current: Option<ID>) -> Seq<ReplyView> {
    match current {
        Some(p) => seq![ReplyView::NeighborsRequest { current_planet_id: p }],
        None => Seq::empty(),
    }
}

/// The request to travel from `current` to the destination, unless there is
/// none or it is `current` itself.
pub open spec fn travel_to(current: ID, destination: Option<ID>) -> Seq<ReplyView> {
    match destination {
        Some(d) => if d != current {
            seq![ReplyView::TravelToPlanetRequest { current_planet_id: current, dst_planet_id: d }]
        } else {
            Seq::empty()
        },
        None => Seq::empty(),
    }
}

/// How many entries of `ns` name a planet that `visits` knows as unvisited.
pub open spec fn unvisited_entries(visits: Map<ID, u32>, ns: Seq<ID>) -> nat
    decreases ns.len(),
{
    if ns.len() == 0 {
        0
    } else {
        unvisited_entries(visits, ns.drop_last()) + if count_of(visits, ns.last()) == 0 {
            1nat
        } else {
            0nat
        }
    }
}

/// Jebediah's decision state: who he is, what he knows, what he carries,
/// what he says, and where he stands.
pub struct JebCore {
    pub id: ID,
    pub map: GalaxyMap,
    pub bag: JebBag,
    pub mood: Mood,
    pub current_planet: Option<ID>,
}

/// `a` and `b` hold the same map.
pub open spec fn same_map(a: &GalaxyMap, b: &GalaxyMap) -> bool {
    &&& a.visits() == b.visits()
    &&& a.links() == b.links()
    &&& a.home() == b.home()
}

/// `a` and `b` hold the same bag contents.
pub open spec fn same_bag(a: &JebBag, b: &JebBag) -> bool {
    &&& a.basic_counts() == b.basic_counts()
    &&& a.complex_counts() == b.complex_counts()
}

/// `a` and `b` are the same mood.
pub open spec fn same_mood(a: &Mood, b: &Mood) -> bool {
    &&& a.owner() == b.owner()
    &&& a.phrase() == b.phrase()
    &&& a.events() == b.events()
}

/// `b` is `a` after one more event, `event`.
pub open spec fn mood_after(a: &Mood, b: &Mood, event: JebEvent) -> bool {
    &&& b.owner() == a.owner()
    &&& b.phrase() == phrase_of(event)
    &&& b.events() == a.events() + 1
}

/// The event counter can take the events a command adds to it, and a
/// granted move can add one visit to its planet. Start, kill and a granted
/// move add one event; a list of neighbors adds one per entry naming an
/// unvisited planet, and one more when the current planet is left with no
/// neighbor at all; the other commands add none.
pub open spec fn fits(core: JebCore, cmd: Command) -> bool {
    match cmd {
        Command::StartExplorerAI => core.mood.events() < u32::MAX,
        Command::KillExplorer => core.mood.events() < u32::MAX,
        Command::NeighborsResponse { neighbors } => match core.current_planet {
            None => true,
            Some(c) => core.mood.events() + unvisited_entries(core.map.visits(), neighbors@) + (if links_of(
                core.map.links(),
                c,
            ) == Set::<ID>::empty() && neighbors@.len() == 0 {
                1nat
            } else {
                0nat
            }) <= u32::MAX,
        },
        Command::MoveToPlanet { planet_id, granted } => granted ==> {
            &&& core.mood.events() < u32::MAX
            &&& count_of(core.map.visits(), planet_id) < u32::MAX
        },
        _ => true,
    }
}

/// Entries counted the same way under two maps that give every planet the
/// same count.
proof fn lemma_unvisited_entries_same(v1: Map<ID, u32>, v2: Map<ID, u32>, s: Seq<ID>)
    requires
        forall|q: ID| #[trigger] count_of(v1, q) == count_of(v2, q),
    ensures
        unvisited_entries(v1, s) == unvisited_entries(v2, s),
    decreases s.len(),
{
    if s.len() > 0 {
        lemma_unvisited_entries_same(v1, v2, s.drop_last());
        assert(count_of(v1, s.last()) == count_of(v2, s.last()));
    }
}

/// A prefix of a list has no more unvisited entries than the list.
proof fn lemma_unvisited_entries_prefix(v: Map<ID, u32>, s: Seq<ID>, i: int)
    requires
        0 <= i <= s.len(),
    ensures
        unvisited_entries(v, s.take(i)) <= unvisited_entries(v, s),
    decreases s.len() - i,
{
    if i == s.len() {
        assert(s.take(i) =~= s);
    } else {
        assert(s.take(i + 1).drop_last() =~= s.take(i));
        lemma_unvisited_entries_prefix(v, s, i + 1);
    }
}

/// What handling `cmd` does: `after` is the new state of `before`, and
/// `step` what is sent and asked.
pub open spec fn handled(before: JebCore, after: JebCore, cmd: Command, step: Step) -> bool {
    &&& step.keep_running == !(cmd is KillExplorer)
    &&& match cmd {
        Command::SupportedResourceRequest => step.planet_request == Some(PlanetRequest::SupportedResourceRequest),
        Command::SupportedCombinationRequest => step.planet_request == Some(
            PlanetRequest::SupportedCombinationRequest,
        ),
        Command::GenerateResourceRequest { to_generate } => step.planet_request == Some(
            PlanetRequest::GenerateResourceRequest { resource: to_generate },
        ),
        _ => step.planet_request is None,
    }
    &&& match cmd {
        Command::StartExplorerAI => {
            &&& before.only_mood(&after, JebEvent::Started)
            &&& step.sent() == seq![ReplyView::StartExplorerAIResult] + ask_neighbors(before.current_planet)
        },
        Command::StopExplorerAI => {
            &&& before.unchanged(&after)
            &&& step.sent() == seq![ReplyView::StopExplorerAIResult]
        },
        Command::KillExplorer => {
            &&& before.only_mood(&after, JebEvent::Killed)
            &&& step.sent() == seq![ReplyView::KillExplorerResult]
        },
        Command::ResetExplorerAI => {
            let current = match before.current_planet {
                Some(p) => p,
                None => 0,
            };
            &&& after.id == before.id
            &&& after.current_planet == before.current_planet
            &&& after.map.visits() == Map::<ID, u32>::empty().insert(current, 1u32)
            &&& after.map.links() == Map::<ID, Set<ID>>::empty().insert(current, Set::<ID>::empty())
            &&& after.map.home() == current
            &&& after.bag.basic_counts() == Seq::new(BASIC_KINDS as nat, |i: int| 0usize)
            &&& after.bag.complex_counts() == Seq::new(COMPLEX_KINDS as nat, |i: int| 0usize)
            &&& after.mood.owner() == before.id
            &&& after.mood.phrase() == initial_phrase()
            &&& after.mood.events() == 0
            &&& step.sent() == seq![ReplyView::ResetExplorerAIResult] + (if current != 0 {
                seq![ReplyView::NeighborsRequest { current_planet_id: current }]
            } else {
                Seq::empty()
            })
        },
        Command::MoveToPlanet { planet_id, granted } => if granted {
            &&& after.id == before.id
            &&& after.current_planet == Some(planet_id)
            &&& after.map.visits() == before.map.visits().insert(
                planet_id,
                (count_of(before.map.visits(), planet_id) + 1) as u32,
            )
            &&& after.map.links() == (if before.map.links().contains_key(planet_id) {
                before.map.links()
            } else {
                before.map.links().insert(planet_id, Set::<ID>::empty())
            })
            &&& after.map.home() == before.map.home()
            &&& same_bag(&before.bag, &after.bag)
            &&& mood_after(&before.mood, &after.mood, JebEvent::Arrived(planet_id))
            &&& step.sent() == seq![
                ReplyView::MovedToPlanetResult { planet_id },
                ReplyView::NeighborsRequest { current_planet_id: planet_id },
            ]
        } else {
            &&& before.unchanged(&after)
            &&& step.sent() == seq![ReplyView::MovedToPlanetResult { planet_id }] + ask_neighbors(
                before.current_planet,
            )
        },
        Command::CurrentPlanetRequest => {
            &&& before.unchanged(&after)
            &&& step.sent() == seq![
                ReplyView::CurrentPlanetResult {
                    planet_id: match before.current_planet {
                        Some(p) => p,
                        None => 0,
                    },
                },
            ]
        },
        Command::NeighborsResponse { neighbors } => match before.current_planet {
            None => {
                &&& before.unchanged(&after)
                &&& step.sent() == Seq::<ReplyView>::empty()
            },
            Some(c) => {
                let visits = recorded_visits(before.map.visits(), c, neighbors@);
                let links = recorded_links(before.map.links(), c, neighbors@);
                let fresh = unvisited_entries(visits, neighbors@);
                &&& after.id == before.id
                &&& after.current_planet == before.current_planet
                &&& after.map.visits() == visits
                &&& after.map.links() == links
                &&& after.map.home() == before.map.home()
                &&& same_bag(&before.bag, &after.bag)
                &&& after.mood.owner() == before.mood.owner()
                &&& exists|dest: Option<ID>|
                    #[trigger] is_destination(visits, links, c, dest) && step.sent() == travel_to(c, dest)
                        && after.mood.events() == before.mood.events() + fresh + (if dest is None {
                        1nat
                    } else {
                        0nat
                    }) && after.mood.phrase() == (if dest is None {
                        phrase_of(JebEvent::FullyMapped)
                    } else if fresh > 0 {
                        phrase_of(JebEvent::DiscoveredNeighbor(c))
                    } else {
                        before.mood.phrase()
                    })
            },
        },
        Command::BagContentRequest => {
            &&& before.unchanged(&after)
            &&& step.sent() == seq![
                ReplyView::BagContentResponse {
                    bag_content: summary_of(before.bag.basic_counts(), before.bag.complex_counts()),
                },
            ]
        },
        Command::SupportedResourceRequest => {
            &&& before.unchanged(&after)
            &&& step.sent() == Seq::<ReplyView>::empty()
        },
        Command::SupportedCombinationRequest => {
            &&& before.unchanged(&after)
            &&& step.sent() == Seq::<ReplyView>::empty()
        },
        Command::GenerateResourceRequest { .. } => {
            &&& before.unchanged(&after)
            &&& step.sent() == Seq::<ReplyView>::empty()
        },
        Command::CombineResourceRequest { .. } => {
            &&& before.unchanged(&after)
            &&& step.sent() == seq![ReplyView::CombineResourceResponse { generated: Err(combine_text()) }]
                + ask_neighbors(before.current_planet)
        },
    }
}

impl JebCore {
    /// The decision state's invariant.
    pub open spec fn wf(&self) -> bool {
        &&& self.map.wf()
        &&& self.bag.wf()
    }

    /// `after` is `self` with nothing changed.
    pub open spec fn unchanged(&self, after: &JebCore) -> bool {
        &&& after.id == self.id
        &&& after.current_planet == self.current_planet
        &&& same_map(&self.map, &after.map)
        &&& same_bag(&self.bag, &after.bag)
        &&& same_mood(&self.mood, &after.mood)
    }

    /// `after` is `self` with one more event, `event`, and nothing else changed.
    pub open spec fn only_mood(&self, after: &JebCore, event: JebEvent) -> bool {
        &&& after.id == self.id
        &&& after.current_planet == self.current_planet
        &&& same_map(&self.map, &after.map)
        &&& same_bag(&self.bag, &after.bag)
        &&& mood_after(&self.mood, &after.mood, event)
    }

    /// Asks the orchestrator for the neighbors of `current_planet`.
    fn request_neighbors(&self, replies: &mut Vec<Reply>, current_planet: ID)
        ensures
            views_of(final(replies)@) == views_of(old(replies)@) + seq![
                ReplyView::NeighborsRequest { current_planet_id: current_planet },
            ],
    {
        push_reply(replies, Reply::NeighborsRequest { current_planet_id: current_planet });
        assert(views_of(replies@) =~= views_of(old(replies)@) + seq![
            ReplyView::NeighborsRequest { current_planet_id: current_planet },
        ]);
    }

    /// Asks for the neighbors of the current planet, when it is known.
    fn request_current_neighbors(&self, replies: &mut Vec<Reply>)
        ensures
            views_of(final(replies)@) == views_of(old(replies)@) + ask_neighbors(self.current_planet),
    {
        if let Some(current) = self.current_planet {
            self.request_neighbors(replies, current);
        } else {
            assert(views_of(replies@) =~= views_of(old(replies)@) + ask_neighbors(self.current_planet));
        }
    }

    /// Asks to travel from `current_planet` to `destination`; a destination
    /// equal to the current planet is ignored.
    fn send_travel_request(&self, replies: &mut Vec<Reply>, current_planet: ID, destination: ID)
        ensures
            views_of(final(replies)@) == views_of(old(replies)@) + travel_to(current_planet, Some(destination)),
    {
        if current_planet == destination {
            assert(views_of(replies@) =~= views_of(old(replies)@) + travel_to(current_planet, Some(destination)));
            return;
        }
        push_reply(replies, Reply::TravelToPlanetRequest { current_planet_id: current_planet, dst_planet_id: destination });
        assert(views_of(replies@) =~= views_of(old(replies)@) + travel_to(current_planet, Some(destination)));
    }

    /// A single reply, then the neighbors of the current planet if known.
    fn reply_then_ask(&self, reply: Reply) -> (replies: Vec<Reply>)
        ensures
            views_of(replies@) == seq![reply@] + ask_neighbors(self.current_planet),
    {
        let mut replies: Vec<Reply> = Vec::new();
        push_reply(&mut replies, reply);
        assert(views_of(replies@) =~= seq![reply@]);
        self.request_current_neighbors(&mut replies);
        replies
    }

    /// A single reply.
    fn only_reply(reply: Reply) -> (replies: Vec<Reply>)
        ensures
            views_of(replies@) == seq![reply@],
    {
        let mut replies: Vec<Reply> = Vec::new();
        push_reply(&mut replies, reply);
        assert(views_of(replies@) =~= seq![reply@]);
        replies
    }

    fn on_start(&mut self) -> (step: Step)
        requires
            old(self).wf(),
            fits(*old(self), Command::StartExplorerAI),
        ensures
            final(self).wf(),
            handled(*old(self), *final(self), Command::StartExplorerAI, step),
    {
        let _ = self.mood.on_event(JebEvent::Started);
        let replies = self.reply_then_ask(Reply::StartExplorerAIResult);
        Step { replies, planet_request: None, keep_running: true }
    }

    fn on_stop(&mut self) -> (step: Step)
        requires
            old(self).wf(),
        ensures
            final(self).wf(),
            handled(*old(self), *final(self), Command::StopExplorerAI, step),
    {
        Step { replies: Self::only_reply(Reply::StopExplorerAIResult), planet_request: None, keep_running: true }
    }

    fn on_kill(&mut self) -> (step: Step)
        requires
            old(self).wf(),
            fits(*old(self), Command::KillExplorer),
        ensures
            final(self).wf(),
            handled(*old(self), *final(self), Command::KillExplorer, step),
    {
        let _ = self.mood.on_event(JebEvent::Killed);
        Step { replies: Self::only_reply(Reply::KillExplorerResult), planet_request: None, keep_running: false }
    }

    fn on_reset(&mut self) -> (step: Step)
        requires
            old(self).wf(),
        ensures
            final(self).wf(),
            handled(*old(self), *final(self), Command::ResetExplorerAI, step),
    {
        let current = match self.current_planet {
            Some(p) => p,
            None => 0,
        };
        self.map = GalaxyMap::new(current);
        self.bag = JebBag::new();
        self.mood = Mood::new(self.id);
        let mut replies = Self::only_reply(Reply::ResetExplorerAIResult);
        if current != 0 {
            self.request_neighbors(&mut replies, current);
        }
        Step { replies, planet_request: None, keep_running: true }
    }

    fn on_move(&mut self, planet_id: ID, granted: bool) -> (step: Step)
        requires
            old(self).wf(),
            fits(*old(self), Command::MoveToPlanet { planet_id, granted }),
        ensures
            final(self).wf(),
            handled(*old(self), *final(self), Command::MoveToPlanet { planet_id, granted }, step),
    {
        if granted {
            self.current_planet = Some(planet_id);
            self.map.visit(planet_id);
            let _ = self.mood.on_event(JebEvent::Arrived(planet_id));
            let mut replies = Self::only_reply(Reply::MovedToPlanetResult { planet_id });
            self.request_neighbors(&mut replies, planet_id);
            assert(views_of(replies@) =~= seq![
                ReplyView::MovedToPlanetResult { planet_id },
                ReplyView::NeighborsRequest { current_planet_id: planet_id },
            ]);
            Step { replies, planet_request: None, keep_running: true }
        } else {
            let replies = self.reply_then_ask(Reply::MovedToPlanetResult { planet_id });
            Step { replies, planet_request: None, keep_running: true }
        }
    }

    fn on_current_planet_request(&mut self) -> (step: Step)
        requires
            old(self).wf(),
        ensures
            final(self).wf(),
            handled(*old(self), *final(self), Command::CurrentPlanetRequest, step),
    {
        let planet_id = match self.current_planet {
            Some(p) => p,
            None => 0,
        };
        Step {
            replies: Self::only_reply(Reply::CurrentPlanetResult { planet_id }),
            planet_request: None,
            keep_running: true,
        }
    }

    fn on_bag_content_request(&mut self) -> (step: Step)
        requires
            old(self).wf(),
        ensures
            final(self).wf(),
            handled(*old(self), *final(self), Command::BagContentRequest, step),
    {
        let summary = self.bag.summarize();
        Step {
            replies: Self::only_reply(Reply::BagContentResponse { bag_content: summary }),
            planet_request: None,
            keep_running: true,
        }
    }

    fn on_combine(&mut self, to_generate: ComplexKind) -> (step: Step)
        requires
            old(self).wf(),
        ensures
            final(self).wf(),
            handled(*old(self), *final(self), Command::CombineResourceRequest { to_generate }, step),
    {
        let replies = self.reply_then_ask(Reply::CombineResourceResponse { generated: Err("combine not yet implemented") });
        Step { replies, planet_request: None, keep_running: true }
    }

    fn on_neighbors(&mut self, neighbors: Vec<ID>) -> (step: Step)
        requires
            old(self).wf(),
            fits(*old(self), Command::NeighborsResponse { neighbors }),
        ensures
            final(self).wf(),
            handled(*old(self), *final(self), Command::NeighborsResponse { neighbors }, step),
    {
        let mut replies: Vec<Reply> = Vec::new();
        let current = match self.current_planet {
            Some(c) => c,
            None => {
                assert(views_of(replies@) =~= Seq::<ReplyView>::empty());
                return Step { replies, planet_request: None, keep_running: true };
            },
        };
        let listed = neighbors.clone();
        assert(listed@ =~= neighbors@);
        self.map.record_neighbors(current, listed);
        let ghost visits = self.map.visits();
        proof {
            let v0 = old(self).map.visits();
            assert forall|q: ID| #[trigger] count_of(visits, q) == count_of(v0, q) by {
                super::mapping::lemma_recorded_visits_keep_counts(v0, current, neighbors@, q);
            }
            lemma_unvisited_entries_same(visits, v0, neighbors@);
        }
        let ghost links = self.map.links();
        let ghost events0 = self.mood.events();
        let ghost phrase0 = self.mood.phrase();
        let mut i: usize = 0;
        while i < neighbors.len()
            invariant
                self.wf(),
                visits == self.map.visits(),
                links == self.map.links(),
                self.map.home() == old(self).map.home(),
                same_bag(&old(self).bag, &self.bag),
                self.id == old(self).id,
                self.current_planet == old(self).current_planet,
                self.current_planet == Some(current),
                i <= neighbors@.len(),
                events0 + unvisited_entries(visits, neighbors@) <= u32::MAX,
                events0 + unvisited_entries(visits, neighbors@) + (if links_of(old(self).map.links(), current)
                    == Set::<ID>::empty() && neighbors@.len() == 0 {
                    1nat
                } else {
                    0nat
                }) <= u32::MAX,
                links == recorded_links(old(self).map.links(), current, neighbors@),
                self.mood.events() == events0 + unvisited_entries(visits, neighbors@.take(i as int)),
                unvisited_entries(visits, neighbors@.take(i as int)) <= i,
                self.mood.phrase() == (if unvisited_entries(visits, neighbors@.take(i as int)) > 0 {
                    phrase_of(JebEvent::DiscoveredNeighbor(current))
                } else {
                    phrase0
                }),
                self.mood.owner() == old(self).mood.owner(),
            decreases neighbors@.len() - i,
        {
            let neighbor = neighbors[i];
            proof {
                let t = neighbors@.take(i + 1);
                assert(t.drop_last() =~= neighbors@.take(i as int));
                assert(t.last() == neighbor);
                lemma_unvisited_entries_prefix(visits, neighbors@, i + 1);
            }
            if self.map.visit_count(neighbor) == 0 {
                let _ = self.mood.on_event(JebEvent::DiscoveredNeighbor(neighbor));
            }
            i = i + 1;
        }
        proof {
            assert(neighbors@.take(neighbors@.len() as int) =~= neighbors@);
        }
        let destination = pick_destination(current, &self.map);
        match destination {
            Some(d) => {
                self.send_travel_request(&mut replies, current, d);
            },
            None => {
                proof {
                    let l0 = old(self).map.links();
                    super::navigation::lemma_destination_is_neighbor(visits, links, current, destination);
                    if neighbors@.len() > 0 {
                        super::mapping::lemma_recorded_links_bilateral(l0, current, neighbors@, current, neighbors@[0]);
                        assert(neighbors@.contains(neighbors@[0]));
                    }
                    assert forall|x: ID| !links_of(l0, current).contains(x) by {
                        if links_of(l0, current).contains(x) {
                            super::mapping::lemma_recorded_links_bilateral(l0, current, neighbors@, current, x);
                            assert(links_of(links, current).contains(x));
                        }
                    }
                    assert(links_of(l0, current) =~= Set::<ID>::empty());
                }
                let _ = self.mood.on_event(JebEvent::FullyMapped);
                assert(views_of(replies@) =~= travel_to(current, destination));
            },
        }
        assert(views_of(replies@) =~= travel_to(current, destination));
        let step = Step { replies, planet_request: None, keep_running: true };
        proof {
            let fresh = unvisited_entries(visits, neighbors@);
            assert(is_destination(visits, self.map.links(), current, destination));
            assert(step.sent() == travel_to(current, destination));
            assert(self.mood.events() == old(self).mood.events() + fresh + (if destination is None {
                1nat
            } else {
                0nat
            }));
            assert(self.mood.phrase() == (if destination is None {
                phrase_of(JebEvent::FullyMapped)
            } else if fresh > 0 {
                phrase_of(JebEvent::DiscoveredNeighbor(current))
            } else {
                old(self).mood.phrase()
            }));
        }
        step
    }

    /// The orchestrator asked for the resources or combinations that the
    /// current planet supports: the request goes to the planet, and the
    /// caller forwards its answer before calling `finish_planet_exchange`.
    fn on_planet_question(&self, request: PlanetRequest) -> (step: Step)
        ensures
            step.planet_request == Some(request),
            step.sent() == Seq::<ReplyView>::empty(),
            step.keep_running,
    {
        let replies: Vec<Reply> = Vec::new();
        assert(views_of(replies@) =~= Seq::<ReplyView>::empty());
        Step { replies, planet_request: Some(request), keep_running: true }
    }

    /// Handles a message of the orchestrator.
    ///
    /// Returns the step to perform; `keep_running` is `false` when the
    /// explorer should stop.
    pub fn handle_orchestrator_message(&mut self, msg: Command) -> (step: Step)
        requires
            old(self).wf(),
            fits(*old(self), msg),
        ensures
            final(self).wf(),
            handled(*old(self), *final(self), msg, step),
    {
        match msg {
            Command::StartExplorerAI => self.on_start(),
            Command::StopExplorerAI => self.on_stop(),
            Command::KillExplorer => self.on_kill(),
            Command::ResetExplorerAI => self.on_reset(),
            Command::MoveToPlanet { planet_id, granted } => self.on_move(planet_id, granted),
            Command::CurrentPlanetRequest => self.on_current_planet_request(),
            Command::NeighborsResponse { neighbors } => self.on_neighbors(neighbors),
            Command::BagContentRequest => self.on_bag_content_request(),
            Command::SupportedResourceRequest => self.on_planet_question(PlanetRequest::SupportedResourceRequest),
            Command::SupportedCombinationRequest => self.on_planet_question(
                PlanetRequest::SupportedCombinationRequest,
            ),
            Command::GenerateResourceRequest { to_generate } => self.on_planet_question(
                PlanetRequest::GenerateResourceRequest { resource: to_generate },
            ),
            Command::CombineResourceRequest { to_generate } => self.on_combine(to_generate),
        }
    }

    /// After the answer of the planet to a question about its resources or
    /// combinations has been forwarded: ask for the neighbors again.
    pub fn finish_planet_exchange(&self) -> (step: Step)
        ensures
            step.sent() == ask_neighbors(self.current_planet),
            step.planet_request is None,
            step.keep_running,
    {
        let mut replies: Vec<Reply> = Vec::new();
        assert(views_of(replies@) =~= Seq::<ReplyView>::empty());
        self.request_current_neighbors(&mut replies);
        assert(views_of(replies@) =~= ask_neighbors(self.current_planet));
        Step { replies, planet_request: None, keep_running: true }
    }

    /// After asking the planet to generate a resource: keep what it made,
    /// tell the orchestrator, and ask for the neighbors again.
    pub fn on_generate_outcome(&mut self, outcome: GenerateOutcome) -> (step: Step)
        requires
            old(self).wf(),
            outcome matches GenerateOutcome::Generated(resource) ==> {
                &&& old(self).mood.events() < u32::MAX
                &&& old(self).bag.basic_counts()[basic_slot(kind_of_basic(resource))] < usize::MAX
            },
        ensures
            final(self).wf(),
            step.planet_request is None,
            step.keep_running,
            final(self).id == old(self).id,
            final(self).current_planet == old(self).current_planet,
            same_map(&old(self).map, &final(self).map),
            final(self).bag.complex_counts() == old(self).bag.complex_counts(),
            match outcome {
                GenerateOutcome::Generated(resource) => {
                    &&& mood_after(&old(self).mood, &final(self).mood, JebEvent::CollectedResource)
                    &&& final(self).bag.basic_counts() == old(self).bag.basic_counts().update(
                        basic_slot(kind_of_basic(resource)),
                        (old(self).bag.basic_counts()[basic_slot(kind_of_basic(resource))] + 1) as usize,
                    )
                    &&& step.sent() == seq![ReplyView::GenerateResourceResponse { generated: Ok(()) }]
                        + ask_neighbors(old(self).current_planet)
                },
                GenerateOutcome::Refused => {
                    &&& same_mood(&old(self).mood, &final(self).mood)
                    &&& same_bag(&old(self).bag, &final(self).bag)
                    &&& step.sent() == seq![ReplyView::GenerateResourceResponse { generated: Err(refused_text()) }]
                        + ask_neighbors(old(self).current_planet)
                },
                GenerateOutcome::Unexpected => {
                    &&& same_mood(&old(self).mood, &final(self).mood)
                    &&& same_bag(&old(self).bag, &final(self).bag)
                    &&& step.sent() == ask_neighbors(old(self).current_planet)
                },
                GenerateOutcome::NoReply => {
                    &&& same_mood(&old(self).mood, &final(self).mood)
                    &&& same_bag(&old(self).bag, &final(self).bag)
                    &&& step.sent() == seq![ReplyView::GenerateResourceResponse { generated: Err(lost_text()) }]
                        + ask_neighbors(old(self).current_planet)
                },
            },
    {
        let replies = match outcome {
            GenerateOutcome::Generated(resource) => {
                self.bag.add_basic(resource);
                let _ = self.mood.on_event(JebEvent::CollectedResource);
                self.reply_then_ask(Reply::GenerateResourceResponse { generated: Ok(()) })
            },
            GenerateOutcome::Refused => self.reply_then_ask(
                Reply::GenerateResourceResponse { generated: Err("planet could not generate the resource") },
            ),
            GenerateOutcome::Unexpected => {
                let mut replies: Vec<Reply> = Vec::new();
                assert(views_of(replies@) =~= Seq::<ReplyView>::empty());
                self.request_current_neighbors(&mut replies);
                assert(views_of(replies@) =~= ask_neighbors(self.current_planet));
                replies
            },
            GenerateOutcome::NoReply => self.reply_then_ask(
                Reply::GenerateResourceResponse {
                    generated: Err("failed to receive GenerateResourceResponse from planet"),
                },
            ),
        };
        Step { replies, planet_request: None, keep_running: true }
    }

    /// A fresh explorer standing on `starting_planet`.
    pub fn new(id: ID, starting_planet: ID) -> (core: Self)
        ensures
            core.wf(),
            core.id == id,
            core.current_planet == Some(starting_planet),
            core.map.visits() == Map::<ID, u32>::empty().insert(starting_planet, 1u32),
            core.map.links() == Map::<ID, Set<ID>>::empty().insert(starting_planet, Set::<ID>::empty()),
            core.map.home() == starting_planet,
            core.bag.basic_counts() == Seq::new(BASIC_KINDS as nat, |i: int| 0usize),
            core.bag.complex_counts() == Seq::new(COMPLEX_KINDS as nat, |i: int| 0usize),
            core.mood.owner() == id,
            core.mood.phrase() == initial_phrase(),
            core.mood.events() == 0,
    {
        JebCore {
            id,
            map: GalaxyMap::new(starting_planet),
            bag: JebBag::new(),
            mood: Mood::new(id),
            current_planet: Some(starting_planet),
        }
    }
}

/// The name of each message of the orchestrator, for the logs.
pub open spec fn command_name(msg: Command) -> &'static str {
    match msg {
        Command::StartExplorerAI => "StartExplorerAI",
        Command::StopExplorerAI => "StopExplorerAI",
        Command::KillExplorer => "KillExplorer",
        Command::ResetExplorerAI => "ResetExplorerAI",
        Command::MoveToPlanet { .. } => "MoveToPlanet",
        Command::CurrentPlanetRequest => "CurrentPlanetRequest",
        Command::NeighborsResponse { .. } => "NeighborsResponse",
        Command::BagContentRequest => "BagContentRequest",
        Command::SupportedResourceRequest => "SupportedResourceRequest",
        Command::SupportedCombinationRequest => "SupportedCombinationRequest",
        Command::GenerateResourceRequest { .. } => "GenerateResourceRequest",
        Command::CombineResourceRequest { .. } => "CombineResourceRequest",
    }
}

/// The name of each kind of message of a planet, for the logs.
pub open spec fn planet_reply_name(kind: PlanetReplyKind) -> &'static str {
    match kind {
        PlanetReplyKind::SupportedResourceResponse => "SupportedResourceResponse",
        PlanetReplyKind::SupportedCombinationResponse => "SupportedCombinationResponse",
        PlanetReplyKind::GenerateResourceResponse => "GenerateResourceResponse",
        PlanetReplyKind::CombineResourceResponse => "CombineResourceResponse",
        PlanetReplyKind::AvailableEnergyCellResponse => "AvailableEnergyCellResponse",
        PlanetReplyKind::Stopped => "Stopped",
    }
}

/// The name of a message of the orchestrator.
pub fn orchestrator_message_name(msg: &Command) -> (name: &'static str)
    ensures
        name == command_name(*msg),
{
    match msg {
        Command::StartExplorerAI => "StartExplorerAI",
        Command::StopExplorerAI => "StopExplorerAI",
        Command::KillExplorer => "KillExplorer",
        Command::ResetExplorerAI => "ResetExplorerAI",
        Command::MoveToPlanet { .. } => "MoveToPlanet",
        Command::CurrentPlanetRequest => "CurrentPlanetRequest",
        Command::NeighborsResponse { .. } => "NeighborsResponse",
        Command::BagContentRequest => "BagContentRequest",
        Command::SupportedResourceRequest => "SupportedResourceRequest",
        Command::SupportedCombinationRequest => "SupportedCombinationRequest",
        Command::GenerateResourceRequest { .. } => "GenerateResourceRequest",
        Command::CombineResourceRequest { .. } => "CombineResourceRequest",
    }
}

/// The name of a kind of message of a planet.
pub fn planet_message_name(kind: &PlanetReplyKind) -> (name: &'static str)
    ensures
        name == planet_reply_name(*kind),
{
    match kind {
        PlanetReplyKind::SupportedResourceResponse => "SupportedResourceResponse",
        PlanetReplyKind::SupportedCombinationResponse => "SupportedCombinationResponse",
        PlanetReplyKind::GenerateResourceResponse => "GenerateResourceResponse",
        PlanetReplyKind::CombineResourceResponse => "CombineResourceResponse",
        PlanetReplyKind::AvailableEnergyCellResponse => "AvailableEnergyCellResponse",
        PlanetReplyKind::Stopped => "Stopped",
    }
}

/// After a list of neighbors arrives, Jebediah never asks to travel to the
/// planet he stands on, and only ever asks to travel to one of its recorded
/// neighbors.
pub proof fn lemma_travel_only_to_neighbors(before: JebCore, after: JebCore, neighbors: Vec<ID>, step: Step)
    requires
        handled(before, after, Command::NeighborsResponse { neighbors }, step),
        before.current_planet is Some,
    ensures
        forall|i: int| 0 <= i < step.sent().len() ==> (#[trigger] step.sent()[i] matches ReplyView::TravelToPlanetRequest {
            current_planet_id,
            dst_planet_id,
        } && current_planet_id == before.current_planet->0 && dst_planet_id != current_planet_id
            && after.map.links()[current_planet_id].contains(dst_planet_id)),
        step.sent().len() <= 1,
{
    let c = before.current_planet->0;
    let visits = recorded_visits(before.map.visits(), c, neighbors@);
    let links = recorded_links(before.map.links(), c, neighbors@);
    let dest = choose|dest: Option<ID>|
        #[trigger] is_destination(visits, links, c, dest) && step.sent() == travel_to(c, dest)
            && after.mood.events() == before.mood.events() + unvisited_entries(visits, neighbors@) + (if dest is None {
            1nat
        } else {
            0nat
        }) && after.mood.phrase() == (if dest is None {
            phrase_of(JebEvent::FullyMapped)
        } else if unvisited_entries(visits, neighbors@) > 0 {
            phrase_of(JebEvent::DiscoveredNeighbor(c))
        } else {
            before.mood.phrase()
        });
    super::navigation::lemma_destination_is_neighbor(visits, links, c, dest);
    assert(links.contains_key(c));
}

/// Jebediah stands on a planet he has visited.
pub open spec fn stands_on_visited(core: JebCore) -> bool {
    core.current_planet matches Some(p) ==> count_of(core.map.visits(), p) >= 1
}

/// Every message keeps Jebediah standing on a visited planet.
pub proof fn lemma_stands_on_visited(before: JebCore, after: JebCore, cmd: Command, step: Step)
    requires
        fits(before, cmd),
        handled(before, after, cmd, step),
        stands_on_visited(before),
    ensures
        stands_on_visited(after),
{
    match cmd {
        Command::NeighborsResponse { neighbors } => {
            if let Some(c) = before.current_planet {
                super::mapping::lemma_recorded_visits_keep_counts(before.map.visits(), c, neighbors@, c);
            }
        },
        Command::ResetExplorerAI => {
        },
        _ => {},
    }
}

/// Apart from a reset, no message makes Jebediah forget a planet or lowers
/// a visit count.
pub proof fn lemma_visits_only_grow(before: JebCore, after: JebCore, cmd: Command, step: Step, p: ID)
    requires
        fits(before, cmd),
        handled(before, after, cmd, step),
        !(cmd is ResetExplorerAI),
    ensures
        before.map.visits().contains_key(p) ==> after.map.visits().contains_key(p),
        count_of(after.map.visits(), p) >= count_of(before.map.visits(), p),
{
    match cmd {
        Command::NeighborsResponse { neighbors } => {
            if let Some(c) = before.current_planet {
                super::mapping::lemma_recorded_visits_keep_counts(before.map.visits(), c, neighbors@, p);
            }
        },
        _ => {},
    }
}

} // verus!
