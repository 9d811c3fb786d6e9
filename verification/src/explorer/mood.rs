//! # Jebediah's mood
//!
//! Turns game events into log phrases that reflect Jebediah's personality.
//! The GUI reads `Mood::current_phrase()` to show what Jeb is thinking.
//!
//! `From<JebEvent> for &'static str` centralises all phrase mapping so the
//! conversion is defined once and reusable anywhere via `.into()`.

use vstd::prelude::*;
use vstd::std_specs::convert::FromSpecImpl;
use common_game::utils::ID;

verus! {

/// Events that change Jebediah's displayed phrase.
#[derive(Debug, Clone)]
pub enum JebEvent {
    Started,
    Arrived(ID),
    Revisited(ID),
    DiscoveredNeighbor(ID),
    AsteroidWhilePresent,
    PlanetDestroyed(ID),
    CollectedResource,
    BagEmpty,
    FullyMapped,
    Killed,
}

/// The phrase Jebediah says on each event.
pub open spec fn phrase_of(event: JebEvent) -> &'static str {
    match event {
        JebEvent::Started => "Buckle up, galaxy. Jebediah Kerman has arrived.",
        JebEvent::Arrived(_) => "New planet! Never been here. Could be dangerous. LET'S GO.",
        JebEvent::Revisited(_) => "Back again. Still exciting though.",
        JebEvent::DiscoveredNeighbor(_) => "Uncharted territory nearby. Adding it to the list.",
        JebEvent::AsteroidWhilePresent => "Is that an asteroid?! FASCINATING. Taking notes.",
        JebEvent::PlanetDestroyed(_) => "Planet's gone. I saw the whole thing. Worth it.",
        JebEvent::CollectedResource => "Got something. No idea what I'll do with it. Science!",
        JebEvent::BagEmpty => "Bag's empty. Travelled light, as always. No regrets.",
        JebEvent::FullyMapped => "I've been everywhere. Time to go again, faster.",
        JebEvent::Killed => "Tell Valentina I died doing what I loved. Everything.",
    }
}

/// The phrase of a fresh mood, before any event.
pub open spec fn initial_phrase() -> &'static str {
    "Ready. Strapped in. Extremely eager."
}

/// What Jebediah says on each event, whatever planet it names: the line of
/// each event is fixed, and a fresh mood starts with its own line.
pub proof fn lemma_event_phrases(planet: ID)
    ensures
        phrase_of(JebEvent::Started)@ == "Buckle up, galaxy. Jebediah Kerman has arrived."@,
        phrase_of(JebEvent::Arrived(planet))@ == "New planet! Never been here. Could be dangerous. LET'S GO."@,
        phrase_of(JebEvent::Revisited(planet))@ == "Back again. Still exciting though."@,
        phrase_of(JebEvent::DiscoveredNeighbor(planet))@ == "Uncharted territory nearby. Adding it to the list."@,
        phrase_of(JebEvent::AsteroidWhilePresent)@ == "Is that an asteroid?! FASCINATING. Taking notes."@,
        phrase_of(JebEvent::PlanetDestroyed(planet))@ == "Planet's gone. I saw the whole thing. Worth it."@,
        phrase_of(JebEvent::CollectedResource)@ == "Got something. No idea what I'll do with it. Science!"@,
        phrase_of(JebEvent::BagEmpty)@ == "Bag's empty. Travelled light, as always. No regrets."@,
        phrase_of(JebEvent::FullyMapped)@ == "I've been everywhere. Time to go again, faster."@,
        phrase_of(JebEvent::Killed)@ == "Tell Valentina I died doing what I loved. Everything."@,
        initial_phrase()@ == "Ready. Strapped in. Extremely eager."@,
{
}

impl JebEvent {
    /// The phrase Jebediah says on this event.
    pub fn phrase(self) -> (phrase: &'static str)
        ensures
            phrase == phrase_of(self),
    {
        match self {
            JebEvent::Started => "Buckle up, galaxy. Jebediah Kerman has arrived.",
            JebEvent::Arrived(_) => "New planet! Never been here. Could be dangerous. LET'S GO.",
            JebEvent::Revisited(_) => "Back again. Still exciting though.",
            JebEvent::DiscoveredNeighbor(_) => "Uncharted territory nearby. Adding it to the list.",
            JebEvent::AsteroidWhilePresent => "Is that an asteroid?! FASCINATING. Taking notes.",
            JebEvent::PlanetDestroyed(_) => "Planet's gone. I saw the whole thing. Worth it.",
            JebEvent::CollectedResource => "Got something. No idea what I'll do with it. Science!",
            JebEvent::BagEmpty => "Bag's empty. Travelled light, as always. No regrets.",
            JebEvent::FullyMapped => "I've been everywhere. Time to go again, faster.",
            JebEvent::Killed => "Tell Valentina I died doing what I loved. Everything.",
        }
    }
}

impl From<JebEvent> for &'static str {
    fn from(event: JebEvent) -> (phrase: &'static str) {
        event.phrase()
    }
}

impl FromSpecImpl<JebEvent> for &'static str {
    open spec fn obeys_from_spec() -> bool {
        true
    }

    open spec fn from_spec(event: JebEvent) -> &'static str {
        phrase_of(event)
    }
}

/// Tracks Jebediah's current phrase and total event count.
pub struct Mood {
    explorer_id: ID,
    current_phrase: &'static str,
    event_count: u32,
}

impl Mood {
    /// The explorer this mood belongs to.
    pub closed spec fn owner(&self) -> ID {
        self.explorer_id
    }

    /// The phrase shown now.
    pub closed spec fn phrase(&self) -> &'static str {
        self.current_phrase
    }

    /// How many events the mood has seen.
    pub closed spec fn events(&self) -> u32 {
        self.event_count
    }

    pub fn new(explorer_id: ID) -> (mood: Self)
        ensures
            mood.owner() == explorer_id,
            mood.phrase() == initial_phrase(),
            mood.events() == 0,
    {
        Self { explorer_id, current_phrase: "Ready. Strapped in. Extremely eager.", event_count: 0 }
    }

    /// Updates the phrase for this event and returns it.
    pub fn on_event(&mut self, event: JebEvent) -> (phrase: &'static str)
        requires
            old(self).events() < u32::MAX,
        ensures
            phrase == phrase_of(event),
            final(self).phrase() == phrase_of(event),
            final(self).events() == old(self).events() + 1,
            final(self).owner() == old(self).owner(),
    {
        self.event_count += 1;
        self.current_phrase = event.into();
        self.current_phrase
    }

    pub fn current_phrase(&self) -> (phrase: &'static str)
        ensures
            phrase == self.phrase(),
    {
        self.current_phrase
    }

    pub fn adventure_count(&self) -> (count: u32)
        ensures
            count == self.events(),
    {
        self.event_count
    }
}

} // verus!
