use jebediah_explorer::explorer::mood::{JebEvent, Mood};

#[test]
fn from_converts_event_to_phrase() {
    let phrase: &str = JebEvent::Started.into();
    assert!(phrase.contains("Jebediah"));
}

#[test]
fn mood_tracks_event_count() {
    let mut mood = Mood::new(1);
    mood.on_event(JebEvent::Started);
    mood.on_event(JebEvent::Arrived(3));
    assert_eq!(mood.adventure_count(), 2);
}

#[test]
fn mood_updates_phrase_on_event() {
    let mut mood = Mood::new(1);
    let phrase = mood.on_event(JebEvent::Killed);
    assert!(phrase.contains("Valentina"));
}

#[test]
fn a_new_mood_is_eager_and_has_seen_nothing() {
    let mood = Mood::new(7);
    assert_eq!(mood.current_phrase(), "Ready. Strapped in. Extremely eager.");
    assert_eq!(mood.adventure_count(), 0);
}

#[test]
fn the_current_phrase_is_the_last_event_phrase() {
    let mut mood = Mood::new(1);
    mood.on_event(JebEvent::FullyMapped);
    mood.on_event(JebEvent::CollectedResource);
    assert_eq!(
        mood.current_phrase(),
        "Got something. No idea what I'll do with it. Science!"
    );
}

#[test]
fn events_carrying_a_planet_share_their_phrase() {
    let a: &str = JebEvent::DiscoveredNeighbor(1).into();
    let b: &str = JebEvent::DiscoveredNeighbor(99).into();
    assert_eq!(a, b);
    assert_eq!(a, "Uncharted territory nearby. Adding it to the list.");
}

#[test]
fn every_event_has_its_own_phrase() {
    let events = vec![
        JebEvent::Started,
        JebEvent::Arrived(1),
        JebEvent::Revisited(1),
        JebEvent::DiscoveredNeighbor(1),
        JebEvent::AsteroidWhilePresent,
        JebEvent::PlanetDestroyed(1),
        JebEvent::CollectedResource,
        JebEvent::BagEmpty,
        JebEvent::FullyMapped,
        JebEvent::Killed,
    ];
    let phrases: Vec<&str> = events.into_iter().map(|e| e.phrase()).collect();
    for i in 0..phrases.len() {
        for j in 0..phrases.len() {
            if i != j {
                assert_ne!(phrases[i], phrases[j]);
            }
        }
    }
    assert_eq!(phrases[4], "Is that an asteroid?! FASCINATING. Taking notes.");
}
