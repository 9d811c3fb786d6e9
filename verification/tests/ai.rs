use jebediah_explorer::explorer::ai::{
    orchestrator_message_name, planet_message_name, Command, GenerateOutcome, JebCore, PlanetReplyKind,
    PlanetRequest, Reply,
};
use jebediah_explorer::explorer::resources::{BasicKind, ComplexKind, ResourceKind};

fn neighbors_request_for(reply: &Reply) -> Option<u32> {
    match reply {
        Reply::NeighborsRequest { current_planet_id } => Some(*current_planet_id),
        _ => None,
    }
}

#[test]
fn start_answers_and_asks_for_neighbors() {
    let mut core = JebCore::new(7, 1);
    let step = core.handle_orchestrator_message(Command::StartExplorerAI);

    assert!(step.keep_running);
    assert!(step.planet_request.is_none());
    assert_eq!(step.replies.len(), 2);
    assert!(matches!(step.replies[0], Reply::StartExplorerAIResult));
    assert_eq!(neighbors_request_for(&step.replies[1]), Some(1));
    assert!(core.mood.current_phrase().contains("Jebediah"));
    assert_eq!(core.mood.adventure_count(), 1);
}

#[test]
fn neighbors_response_sends_jeb_to_the_lowest_unvisited_neighbor() {
    let mut core = JebCore::new(7, 1);
    let step = core.handle_orchestrator_message(Command::NeighborsResponse { neighbors: vec![4, 2, 3] });

    assert_eq!(step.replies.len(), 1);
    assert!(matches!(
        step.replies[0],
        Reply::TravelToPlanetRequest { current_planet_id: 1, dst_planet_id: 2 }
    ));
    assert_eq!(core.map.known_neighbors(1), vec![2, 3, 4]);
    assert_eq!(core.mood.adventure_count(), 3);
    assert_eq!(
        core.mood.current_phrase(),
        "Uncharted territory nearby. Adding it to the list."
    );
}

#[test]
fn no_neighbors_means_fully_mapped() {
    let mut core = JebCore::new(7, 1);
    let step = core.handle_orchestrator_message(Command::NeighborsResponse { neighbors: vec![] });

    assert!(step.replies.is_empty());
    assert_eq!(core.mood.current_phrase(), "I've been everywhere. Time to go again, faster.");
    assert_eq!(core.mood.adventure_count(), 1);
}

#[test]
fn a_self_loop_is_never_a_travel_request() {
    let mut core = JebCore::new(7, 1);
    let step = core.handle_orchestrator_message(Command::NeighborsResponse { neighbors: vec![1] });

    assert!(step.replies.is_empty());
    assert_eq!(core.mood.adventure_count(), 0);
}

#[test]
fn granted_move_visits_the_planet_and_asks_for_neighbors() {
    let mut core = JebCore::new(7, 1);
    core.handle_orchestrator_message(Command::NeighborsResponse { neighbors: vec![2] });
    let step = core.handle_orchestrator_message(Command::MoveToPlanet { planet_id: 2, granted: true });

    assert_eq!(core.current_planet, Some(2));
    assert_eq!(core.map.visit_count(2), 1);
    assert_eq!(step.replies.len(), 2);
    assert!(matches!(step.replies[0], Reply::MovedToPlanetResult { planet_id: 2 }));
    assert_eq!(neighbors_request_for(&step.replies[1]), Some(2));
    assert!(core.mood.current_phrase().contains("New planet"));
}

#[test]
fn refused_move_stays_and_asks_again() {
    let mut core = JebCore::new(7, 1);
    let step = core.handle_orchestrator_message(Command::MoveToPlanet { planet_id: 2, granted: false });

    assert_eq!(core.current_planet, Some(1));
    assert_eq!(core.map.visit_count(2), 0);
    assert_eq!(step.replies.len(), 2);
    assert!(matches!(step.replies[0], Reply::MovedToPlanetResult { planet_id: 2 }));
    assert_eq!(neighbors_request_for(&step.replies[1]), Some(1));
}

#[test]
fn kill_stops_the_explorer() {
    let mut core = JebCore::new(7, 1);
    let step = core.handle_orchestrator_message(Command::KillExplorer);

    assert!(!step.keep_running);
    assert_eq!(step.replies.len(), 1);
    assert!(matches!(step.replies[0], Reply::KillExplorerResult));
    assert!(core.mood.current_phrase().contains("Valentina"));
}

#[test]
fn stop_only_acknowledges() {
    let mut core = JebCore::new(7, 1);
    let step = core.handle_orchestrator_message(Command::StopExplorerAI);

    assert!(step.keep_running);
    assert_eq!(step.replies.len(), 1);
    assert!(matches!(step.replies[0], Reply::StopExplorerAIResult));
    assert_eq!(core.mood.adventure_count(), 0);
}

#[test]
fn reset_forgets_the_map_but_keeps_the_position() {
    let mut core = JebCore::new(7, 1);
    core.handle_orchestrator_message(Command::NeighborsResponse { neighbors: vec![2, 3] });
    core.handle_orchestrator_message(Command::MoveToPlanet { planet_id: 2, granted: true });
    let step = core.handle_orchestrator_message(Command::ResetExplorerAI);

    assert_eq!(core.current_planet, Some(2));
    assert_eq!(core.map.known_planets(), vec![2]);
    assert_eq!(core.map.visit_count(2), 1);
    assert_eq!(core.mood.adventure_count(), 0);
    assert_eq!(step.replies.len(), 2);
    assert!(matches!(step.replies[0], Reply::ResetExplorerAIResult));
    assert_eq!(neighbors_request_for(&step.replies[1]), Some(2));
}

#[test]
fn reset_on_planet_zero_does_not_ask_for_neighbors() {
    let mut core = JebCore::new(7, 0);
    let step = core.handle_orchestrator_message(Command::ResetExplorerAI);

    assert_eq!(step.replies.len(), 1);
    assert!(matches!(step.replies[0], Reply::ResetExplorerAIResult));
}

#[test]
fn current_planet_request_names_the_planet() {
    let mut core = JebCore::new(7, 5);
    let step = core.handle_orchestrator_message(Command::CurrentPlanetRequest);

    assert_eq!(step.replies.len(), 1);
    assert!(matches!(step.replies[0], Reply::CurrentPlanetResult { planet_id: 5 }));
}

#[test]
fn an_empty_bag_is_reported_empty() {
    let mut core = JebCore::new(7, 5);
    let step = core.handle_orchestrator_message(Command::BagContentRequest);

    assert_eq!(step.replies.len(), 1);
    match &step.replies[0] {
        Reply::BagContentResponse { bag_content } => assert!(bag_content.is_empty()),
        _ => panic!("expected a bag content response"),
    }
}

#[test]
fn planet_questions_go_to_the_planet() {
    let mut core = JebCore::new(7, 5);

    let step = core.handle_orchestrator_message(Command::SupportedResourceRequest);
    assert!(step.replies.is_empty());
    assert!(matches!(step.planet_request, Some(PlanetRequest::SupportedResourceRequest)));

    let step = core.handle_orchestrator_message(Command::SupportedCombinationRequest);
    assert!(matches!(step.planet_request, Some(PlanetRequest::SupportedCombinationRequest)));

    let step = core.handle_orchestrator_message(Command::GenerateResourceRequest { to_generate: BasicKind::Carbon });
    assert!(matches!(
        step.planet_request,
        Some(PlanetRequest::GenerateResourceRequest { resource: BasicKind::Carbon })
    ));

    let step = core.finish_planet_exchange();
    assert_eq!(step.replies.len(), 1);
    assert_eq!(neighbors_request_for(&step.replies[0]), Some(5));
}

#[test]
fn refused_or_lost_generation_is_reported() {
    let mut core = JebCore::new(7, 5);

    let step = core.on_generate_outcome(GenerateOutcome::Refused);
    assert_eq!(step.replies.len(), 2);
    assert!(matches!(
        step.replies[0],
        Reply::GenerateResourceResponse { generated: Err("planet could not generate the resource") }
    ));

    let step = core.on_generate_outcome(GenerateOutcome::NoReply);
    assert!(matches!(
        step.replies[0],
        Reply::GenerateResourceResponse {
            generated: Err("failed to receive GenerateResourceResponse from planet")
        }
    ));

    let step = core.on_generate_outcome(GenerateOutcome::Unexpected);
    assert_eq!(step.replies.len(), 1);
    assert_eq!(neighbors_request_for(&step.replies[0]), Some(5));
    assert_eq!(core.mood.adventure_count(), 0);
}

#[test]
fn combining_is_not_implemented() {
    let mut core = JebCore::new(7, 5);
    let step = core.handle_orchestrator_message(Command::CombineResourceRequest { to_generate: ComplexKind::Water });

    assert_eq!(step.replies.len(), 2);
    assert!(matches!(
        step.replies[0],
        Reply::CombineResourceResponse { generated: Err("combine not yet implemented") }
    ));
    assert_eq!(neighbors_request_for(&step.replies[1]), Some(5));
}

#[test]
fn message_names_are_the_variant_names() {
    assert_eq!(orchestrator_message_name(&Command::KillExplorer), "KillExplorer");
    assert_eq!(
        orchestrator_message_name(&Command::NeighborsResponse { neighbors: vec![] }),
        "NeighborsResponse"
    );
    assert_eq!(planet_message_name(&PlanetReplyKind::Stopped), "Stopped");
    assert_eq!(
        planet_message_name(&PlanetReplyKind::AvailableEnergyCellResponse),
        "AvailableEnergyCellResponse"
    );
    let _ = ResourceKind::Basic(BasicKind::Oxygen);
}
