use dojo::deployed_contract::{DeployedContractProcessor, Event};
use dojo::field_element::FieldElement;
use dojo::graphql::{GraphqlSupervisor, Happening, Step};
use dojo::manifest::Manifest;

fn event(keys: usize, data: usize) -> Event {
    let element = FieldElement { bytes: [1; 32] };
    Event { from_address: element, keys: vec![element; keys], data: vec![element; data] }
}

#[test]
fn deployed_contract_events_have_at_most_one_key() {
    let processor = DeployedContractProcessor::default();
    assert!(processor.manifest.is_none());
    assert_eq!(processor.event_key(), "ContractDeployed");
    assert!(processor.validate(&event(0, 0)));
    assert!(processor.validate(&event(1, 5)));
    assert!(!processor.validate(&event(2, 0)));
    assert!(!processor.validate(&event(3, 1)));
    let processor =
        DeployedContractProcessor { manifest: Some(Manifest { contracts: Vec::new() }) };
    assert!(processor.validate(&event(1, 0)));
    assert!(!processor.validate(&event(2, 0)));
}

#[test]
fn a_server_is_built_for_the_start_and_for_each_model() {
    let mut models = 3;
    let mut subscriptions = 0;
    let mut built: Vec<u16> = Vec::new();
    let mut spawned: Vec<u16> = Vec::new();
    let mut routed: Vec<u16> = Vec::new();
    let mut supervisor: GraphqlSupervisor<u16> = GraphqlSupervisor::new();
    loop {
        match supervisor.step() {
            Step::Subscribe => {
                assert!(built.is_empty());
                subscriptions += 1;
                supervisor.observe(Happening::Subscribed);
            }
            Step::Build => {
                let addr = 4000 + built.len() as u16;
                built.push(addr);
                supervisor.observe(Happening::Built { addr });
                assert_eq!(supervisor.step(), Step::Spawn { addr });
            }
            Step::Spawn { addr } => {
                spawned.push(addr);
                supervisor.observe(Happening::Spawned);
                assert_eq!(supervisor.step(), Step::Route { addr });
            }
            Step::Route { addr } => {
                assert_eq!(spawned.last(), Some(&addr));
                routed.push(addr);
                supervisor.observe(Happening::Routed);
                assert_eq!(supervisor.step(), Step::AwaitModel);
            }
            Step::AwaitModel if models > 0 => {
                models -= 1;
                supervisor.observe(Happening::ModelRegistered);
                assert_eq!(supervisor.step(), Step::Build);
            }
            Step::AwaitModel => supervisor.observe(Happening::BrokerClosed),
            Step::Stop => break,
        }
    }
    assert_eq!(subscriptions, 1);
    assert_eq!(routed, [4000, 4001, 4002, 4003]);
    assert_eq!(spawned, routed);
    assert_eq!(built, routed);
}

#[test]
fn without_models_there_is_one_server() {
    let mut supervisor: GraphqlSupervisor<u16> = GraphqlSupervisor::new();
    assert_eq!(supervisor.step(), Step::Subscribe);
    supervisor.observe(Happening::Subscribed);
    supervisor.observe(Happening::Built { addr: 1 });
    supervisor.observe(Happening::Spawned);
    supervisor.observe(Happening::Routed);
    assert_eq!(supervisor.step(), Step::AwaitModel);
    supervisor.observe(Happening::BrokerClosed);
    assert_eq!(supervisor.step(), Step::Stop);
}
